//! The layout of bytecode: where instructions begin, and where jumps land.

use vstd::prelude::*;
use crate::chunk::{short_of, ChunkView, Op};
use crate::compiler::CompilerView;
use crate::grammar::State;
use crate::scopes::Capture;
use crate::value::{FunctionView, ValueView};

verus! {

/// The number of bytes of the instruction that begins at `at`: its byte
/// and its operands, and for `Closure` two more bytes for each variable that
/// the named function captures. `None` where no instruction begins.
pub open spec fn size_at(chunk: ChunkView, at: int) -> Option<int> {
    if 0 <= at < chunk.codes.len() {
        match Op::decode_spec(chunk.codes[at]) {
            None => None,
            Some(Op::Closure) => if at + 1 < chunk.codes.len() && chunk.codes[at + 1]
                < chunk.constants.len() {
                match chunk.constants[chunk.codes[at + 1] as int] {
                    ValueView::Function(function) => Some(2 + 2 * function.upvalue_count),
                    _ => None,
                }
            } else {
                None
            },
            Some(op) => Some(1 + op.operands_spec() as int),
        }
    } else {
        None
    }
}

/// Whether instructions lie end to end from `from` up to `to`.
#[verifier::opaque]
pub open spec fn tiled(chunk: ChunkView, from: int, to: int) -> bool
    decreases to - from,
{
    if from >= to {
        from == to
    } else {
        match size_at(chunk, from) {
            Some(size) => if size > 0 && from + size <= to {
                tiled(chunk, from + size, to)
            } else {
                false
            },
            None => false,
        }
    }
}

/// Whether an instruction begins at `at`, or the code ends there.
pub open spec fn boundary(chunk: ChunkView, at: int) -> bool {
    0 <= at <= chunk.codes.len() && tiled(chunk, 0, at)
}

/// Whether a byte is `Jump` or `JumpIfFalse`.
pub open spec fn is_forward(byte: u8) -> bool {
    byte == Op::Jump.byte_spec() || byte == Op::JumpIfFalse.byte_spec()
}

/// Whether the operand at `at` is the placeholder of a forward jump that
/// has not been patched.
pub open spec fn pending_at(chunk: ChunkView, at: int) -> bool {
    &&& boundary(chunk, at - 1)
    &&& at + 2 <= chunk.codes.len()
    &&& is_forward(chunk.codes[at - 1])
    &&& short_of(chunk.codes[at], chunk.codes[at + 1]) == 0xffff
}

/// The operands of the forward jumps that have not been patched.
pub open spec fn unpatched(chunk: ChunkView) -> Set<int> {
    Set::new(|at: int| pending_at(chunk, at))
}

/// Whether the instruction at `at` is in order: a jump lands where an
/// instruction begins or the code ends, unless it is a forward jump that
/// has not been patched; an assignment to a local variable does not assign
/// slot zero.
pub open spec fn jump_ok(chunk: ChunkView, at: int) -> bool {
    let offset = short_of(chunk.codes[at + 1], chunk.codes[at + 2]);
    if is_forward(chunk.codes[at]) {
        pending_at(chunk, at + 1) || boundary(chunk, at + 3 + offset)
    } else if chunk.codes[at] == Op::Loop.byte_spec() {
        boundary(chunk, at + 3 - offset)
    } else if chunk.codes[at] == Op::SetLocal.byte_spec() {
        chunk.codes[at + 1] >= 1
    } else {
        true
    }
}

/// The code is made of whole instructions, every jump in it lands where
/// an instruction begins or the code ends, unless it is a forward jump that
/// has not been patched, and no instruction assigns slot zero.
pub open spec fn code_ok(chunk: ChunkView) -> bool {
    &&& tiled(chunk, 0, chunk.codes.len() as int)
    &&& forall|at: int| 0 <= at < chunk.codes.len() && #[trigger] boundary(chunk, at) ==> jump_ok(chunk, at)
}

/// A function whose code is made of whole instructions, whose every jump
/// lands where an instruction begins or the code ends, and which does not
/// assign slot zero.
pub open spec fn function_ok(function: FunctionView) -> bool {
    code_ok(function.chunk) && unpatched(function.chunk) == Set::<int>::empty()
}

/// Whether the later chunk keeps the beginnings of the instructions of the
/// earlier one: it is at least as long, and where an instruction begins in
/// the earlier one, the same instruction begins in the later one.
pub open spec fn grows(earlier: ChunkView, later: ChunkView) -> bool {
    &&& earlier.codes.len() <= later.codes.len()
    &&& forall|at: int| #[trigger] boundary(earlier, at) ==> boundary(later, at)
    &&& forall|at: int|
        0 <= at < earlier.codes.len() && #[trigger] boundary(earlier, at) ==> later.codes[at]
            == earlier.codes[at]
}

/// Whether two chunks have the same instructions at the beginnings of the
/// instructions of the first, before `upto`.
pub open spec fn agree(first: ChunkView, second: ChunkView, upto: int) -> bool {
    forall|at: int|
        0 <= at < upto && #[trigger] boundary(first, at) ==> size_at(second, at) == size_at(
            first,
            at,
        ) && second.codes[at] == first.codes[at]
}

/// Instructions that lie end to end can be joined.
pub proof fn lemma_tiled_join(chunk: ChunkView, from: int, middle: int, to: int)
    requires
        tiled(chunk, from, middle),
        tiled(chunk, middle, to),
    ensures
        tiled(chunk, from, to),
        from <= middle <= to,
    decreases middle - from,
{
    reveal_with_fuel(tiled, 2);
    if from < middle {
        lemma_tiled_join(chunk, from + size_at(chunk, from).unwrap(), middle, to);
    }
}

/// Where instructions lie end to end up to two places, they lie end to
/// end from the nearer one to the farther one.
pub proof fn lemma_tiled_split(chunk: ChunkView, from: int, middle: int, to: int)
    requires
        tiled(chunk, from, middle),
        tiled(chunk, from, to),
        middle <= to,
    ensures
        tiled(chunk, middle, to),
    decreases middle - from,
{
    reveal_with_fuel(tiled, 2);
    if from < middle {
        lemma_tiled_split(chunk, from + size_at(chunk, from).unwrap(), middle, to);
    }
}

/// The instruction that begins at one beginning ends at or before the next.
pub proof fn lemma_between(chunk: ChunkView, at: int, next: int)
    requires
        boundary(chunk, at),
        boundary(chunk, next),
        at < next,
    ensures
        size_at(chunk, at).is_some(),
        0 < size_at(chunk, at).unwrap(),
        at + size_at(chunk, at).unwrap() <= next,
        boundary(chunk, at + size_at(chunk, at).unwrap()),
{
    reveal_with_fuel(tiled, 2);
    lemma_tiled_split(chunk, 0, at, next);
    let size = size_at(chunk, at).unwrap();
    lemma_tiled_join(chunk, at + size, next, next);
    assert(tiled(chunk, at, at + size)) by {
        assert(tiled(chunk, at + size, at + size));
    }
    lemma_tiled_join(chunk, 0, at, at + size);
}

/// What lies end to end in one chunk does so in a chunk that agrees with
/// it.
pub proof fn lemma_transfer(first: ChunkView, second: ChunkView, from: int, to: int, upto: int)
    requires
        agree(first, second, upto),
        boundary(first, from),
        tiled(first, from, to),
        to <= upto,
        to <= first.codes.len(),
    ensures
        tiled(second, from, to),
    decreases to - from,
{
    reveal_with_fuel(tiled, 2);
    if from < to {
        let size = size_at(first, from).unwrap();
        assert(tiled(first, from, from + size)) by {
            assert(tiled(first, from + size, from + size));
        }
        lemma_tiled_join(first, 0, from, from + size);
        lemma_tiled_join(first, from + size, to, to);
        lemma_transfer(first, second, from + size, to, upto);
    }
}

/// What lies end to end in a chunk that agrees with another does so in that
/// other one.
pub proof fn lemma_transfer_back(first: ChunkView, second: ChunkView, from: int, to: int, upto: int)
    requires
        agree(first, second, upto),
        boundary(first, from),
        tiled(second, from, to),
        to <= upto,
        to <= first.codes.len(),
    ensures
        tiled(first, from, to),
    decreases to - from,
{
    reveal_with_fuel(tiled, 2);
    if from < to {
        let size = size_at(second, from).unwrap();
        assert(size_at(first, from) == Some(size));
        lemma_tiled_join(second, from + size, to, to);
        assert(tiled(first, from, from + size)) by {
            assert(tiled(first, from + size, from + size));
        }
        lemma_tiled_join(first, 0, from, from + size);
        lemma_transfer_back(first, second, from + size, to, upto);
    }
}

/// The empty chunk is in order.
pub proof fn lemma_empty_ok()
    ensures
        code_ok(ChunkView::empty()),
        unpatched(ChunkView::empty()) == Set::<int>::empty(),
{
    reveal_with_fuel(tiled, 2);
    assert(unpatched(ChunkView::empty()) =~= Set::<int>::empty());
}

/// A chunk keeps its own beginnings.
pub proof fn lemma_grows_self(chunk: ChunkView)
    ensures
        grows(chunk, chunk),
{
}

/// Keeping beginnings carries over.
pub proof fn lemma_grows_twice(first: ChunkView, second: ChunkView, third: ChunkView)
    requires
        grows(first, second),
        grows(second, third),
    ensures
        grows(first, third),
{
    assert forall|at: int| #[trigger] boundary(first, at) implies boundary(third, at) by {
        assert(boundary(second, at));
    }
    assert forall|at: int|
        0 <= at < first.codes.len() && #[trigger] boundary(first, at) implies third.codes[at]
        == first.codes[at] by {
        assert(boundary(second, at));
    }
}

/// Whether the later chunk is the earlier one with one instruction at its
/// end, and perhaps more constants.
pub open spec fn extends(earlier: ChunkView, later: ChunkView) -> bool {
    &&& earlier.codes.len() < later.codes.len()
    &&& forall|i: int| 0 <= i < earlier.codes.len() ==> later.codes[i] == earlier.codes[i]
    &&& earlier.constants.len() <= later.constants.len()
    &&& forall|i: int|
        0 <= i < earlier.constants.len() ==> later.constants[i] == earlier.constants[i]
    &&& size_at(later, earlier.codes.len() as int) == Some(
        later.codes.len() - earlier.codes.len(),
    )
}

/// Whether the instruction at the end of the later chunk is a forward
/// jump with a placeholder, a loop that lands where an instruction of the
/// earlier chunk begins, an assignment to a local variable other than slot
/// zero, or none of these instructions.
pub open spec fn ends_well(earlier: ChunkView, later: ChunkView) -> bool {
    let at = earlier.codes.len() as int;
    if is_forward(later.codes[at]) {
        short_of(later.codes[at + 1], later.codes[at + 2]) == 0xffff
    } else if later.codes[at] == Op::Loop.byte_spec() {
        boundary(earlier, at + 3 - short_of(later.codes[at + 1], later.codes[at + 2]))
    } else if later.codes[at] == Op::SetLocal.byte_spec() {
        later.codes[at + 1] >= 1
    } else {
        true
    }
}

/// One more instruction keeps the code in order: the beginnings of the
/// instructions stay, the end of the new instruction is one more, and the
/// forward jumps that have not been patched are those of before, and the new
/// instruction if it is one.
pub proof fn lemma_extend(earlier: ChunkView, later: ChunkView)
    requires
        code_ok(earlier),
        extends(earlier, later),
        ends_well(earlier, later),
    ensures
        code_ok(later),
        grows(earlier, later),
        forall|at: int|
            0 <= at <= earlier.codes.len() ==> (#[trigger] boundary(later, at) <==> boundary(
                earlier,
                at,
            )),
        forall|at: int|
            earlier.codes.len() < at < later.codes.len() ==> !#[trigger] boundary(later, at),
        unpatched(later) == if is_forward(later.codes[earlier.codes.len() as int]) {
            unpatched(earlier).insert(earlier.codes.len() + 1 as int)
        } else {
            unpatched(earlier)
        },
{
    let n = earlier.codes.len() as int;
    let m = later.codes.len() as int;
    assert(boundary(earlier, 0) && boundary(earlier, n)) by {
        reveal_with_fuel(tiled, 2);
    }
    assert(agree(earlier, later, n)) by {
        assert forall|at: int| 0 <= at < n && #[trigger] boundary(earlier, at) implies size_at(
            later,
            at,
        ) == size_at(earlier, at) && later.codes[at] == earlier.codes[at] by {
            lemma_between(earlier, at, n);
        }
    }
    assert forall|at: int| #[trigger] boundary(earlier, at) implies boundary(later, at) by {
        lemma_tiled_split(earlier, 0, at, n);
        lemma_transfer(earlier, later, 0, at, n);
    }
    assert(tiled(later, n, m)) by {
        reveal_with_fuel(tiled, 2);
    }
    lemma_tiled_join(later, 0, n, m);
    assert forall|at: int| 0 <= at <= n && #[trigger] boundary(later, at) implies boundary(
        earlier,
        at,
    ) by {
        lemma_transfer_back(earlier, later, 0, at, n);
    }
    assert forall|at: int| n < at < m implies !#[trigger] boundary(later, at) by {
        if boundary(later, at) {
            lemma_between(later, n, at);
        }
    }
    assert forall|at: int| 0 <= at < m && #[trigger] boundary(later, at) implies jump_ok(
        later,
        at,
    ) by {
        if at < n {
            assert(boundary(earlier, at));
            lemma_between(earlier, at, n);
            assert(jump_ok(earlier, at));
            if is_forward(earlier.codes[at]) {
                if pending_at(earlier, at + 1) {
                    assert(pending_at(later, at + 1));
                } else {
                    assert(boundary(
                        earlier,
                        at + 3 + short_of(earlier.codes[at + 1], earlier.codes[at + 2]),
                    ));
                }
            } else if earlier.codes[at] == Op::Loop.byte_spec() {
                assert(boundary(
                    earlier,
                    at + 3 - short_of(earlier.codes[at + 1], earlier.codes[at + 2]),
                ));
            }
        } else {
            assert(at == n);
            if is_forward(later.codes[n]) {
                assert(pending_at(later, n + 1));
            }
        }
    }
    let expected = if is_forward(later.codes[n]) {
        unpatched(earlier).insert(n + 1)
    } else {
        unpatched(earlier)
    };
    assert forall|at: int| unpatched(later).contains(at) == expected.contains(at) by {
        if pending_at(later, at) {
            if at - 1 < n {
                assert(boundary(earlier, at - 1));
                lemma_between(earlier, at - 1, n);
                assert(pending_at(earlier, at));
            } else if at - 1 > n {
                assert(!boundary(later, at - 1));
            }
        }
        if pending_at(earlier, at) {
            assert(boundary(later, at - 1));
            assert(pending_at(later, at));
        }
    }
    assert(unpatched(later) =~= expected);
}

/// More constants keep the code in order.
pub proof fn lemma_more_constants(earlier: ChunkView, later: ChunkView)
    requires
        code_ok(earlier),
        later.codes == earlier.codes,
        earlier.constants.len() <= later.constants.len(),
        forall|i: int|
            0 <= i < earlier.constants.len() ==> later.constants[i] == earlier.constants[i],
    ensures
        code_ok(later),
        grows(earlier, later),
        unpatched(later) == unpatched(earlier),
        forall|at: int| #[trigger] boundary(later, at) <==> boundary(earlier, at),
{
    let n = earlier.codes.len() as int;
    assert(boundary(earlier, 0) && boundary(earlier, n)) by {
        reveal_with_fuel(tiled, 2);
    }
    assert(agree(earlier, later, n)) by {
        assert forall|at: int| 0 <= at < n && #[trigger] boundary(earlier, at) implies size_at(
            later,
            at,
        ) == size_at(earlier, at) && later.codes[at] == earlier.codes[at] by {
            lemma_between(earlier, at, n);
        }
    }
    assert forall|at: int| #[trigger] boundary(earlier, at) implies boundary(later, at) by {
        lemma_tiled_split(earlier, 0, at, n);
        lemma_transfer(earlier, later, 0, at, n);
    }
    assert forall|at: int| #[trigger] boundary(later, at) implies boundary(earlier, at) by {
        lemma_transfer_back(earlier, later, 0, at, n);
    }
    assert forall|at: int| 0 <= at < n && #[trigger] boundary(later, at) implies jump_ok(
        later,
        at,
    ) by {
        assert(boundary(earlier, at));
        assert(jump_ok(earlier, at));
        if is_forward(earlier.codes[at]) {
            if pending_at(earlier, at + 1) {
                assert(pending_at(later, at + 1));
            } else {
                assert(boundary(
                    earlier,
                    at + 3 + short_of(earlier.codes[at + 1], earlier.codes[at + 2]),
                ));
            }
        } else if earlier.codes[at] == Op::Loop.byte_spec() {
            assert(boundary(
                earlier,
                at + 3 - short_of(earlier.codes[at + 1], earlier.codes[at + 2]),
            ));
        }
    }
    assert forall|at: int| unpatched(later).contains(at) == unpatched(earlier).contains(at) by {
        if pending_at(later, at) {
            assert(boundary(earlier, at - 1));
        }
        if pending_at(earlier, at) {
            assert(boundary(later, at - 1));
        }
    }
    assert(unpatched(later) =~= unpatched(earlier));
}

/// A patch keeps the code in order: the beginnings of the instructions
/// stay, the patched jump lands at the end of the code, and it is no longer
/// among the forward jumps that have not been patched.
pub proof fn lemma_patch(chunk: ChunkView, start: u16)
    requires
        code_ok(chunk),
        pending_at(chunk, start as int),
        chunk.try_patch_jump(start) is Ok,
    ensures
        code_ok(chunk.try_patch_jump(start)->Ok_0),
        grows(chunk, chunk.try_patch_jump(start)->Ok_0),
        unpatched(chunk.try_patch_jump(start)->Ok_0) == unpatched(chunk).remove(start as int),
        forall|at: int| #[trigger]
            boundary(chunk.try_patch_jump(start)->Ok_0, at) <==> boundary(chunk, at),
        constants_ok(chunk) ==> constants_ok(chunk.try_patch_jump(start)->Ok_0),
{
    lemma_constants_same(chunk, chunk.try_patch_jump(start)->Ok_0);
    let patched = chunk.try_patch_jump(start)->Ok_0;
    let n = chunk.codes.len() as int;
    let t = start as int;
    crate::laws::lemma_patched_jump_lands_at_end(chunk, start);
    assert(boundary(chunk, 0) && boundary(chunk, n)) by {
        reveal_with_fuel(tiled, 2);
    }
    lemma_between(chunk, t - 1, n);
    assert(size_at(chunk, t - 1) == Some(3int));
    assert forall|at: int| #[trigger] boundary(chunk, at) && at != t - 1 && 0 <= at < n implies at
        + size_at(chunk, at).unwrap() <= t - 1 || at >= t + 2 by {
        if at < t - 1 {
            lemma_between(chunk, at, t - 1);
        } else {
            lemma_between(chunk, t - 1, at);
        }
    }
    assert(agree(chunk, patched, n)) by {
        assert forall|at: int| 0 <= at < n && #[trigger] boundary(chunk, at) implies size_at(
            patched,
            at,
        ) == size_at(chunk, at) && patched.codes[at] == chunk.codes[at] by {
            lemma_between(chunk, at, n);
            if at != t - 1 {
                assert(at + size_at(chunk, at).unwrap() <= t - 1 || at >= t + 2);
            }
        }
    }
    assert forall|at: int| #[trigger] boundary(chunk, at) implies boundary(patched, at) by {
        lemma_tiled_split(chunk, 0, at, n);
        lemma_transfer(chunk, patched, 0, at, n);
    }
    assert forall|at: int| #[trigger] boundary(patched, at) implies boundary(chunk, at) by {
        lemma_transfer_back(chunk, patched, 0, at, n);
    }
    assert forall|at: int| 0 <= at < n && #[trigger] boundary(patched, at) implies jump_ok(
        patched,
        at,
    ) by {
        assert(boundary(chunk, at));
        assert(jump_ok(chunk, at));
        lemma_between(chunk, at, n);
        if at == t - 1 {
            assert(boundary(patched, n));
        } else {
            assert(at + size_at(chunk, at).unwrap() <= t - 1 || at >= t + 2);
            if is_forward(chunk.codes[at]) {
                if pending_at(chunk, at + 1) {
                    assert(pending_at(patched, at + 1));
                } else {
                    assert(boundary(
                        chunk,
                        at + 3 + short_of(chunk.codes[at + 1], chunk.codes[at + 2]),
                    ));
                }
            } else if chunk.codes[at] == Op::Loop.byte_spec() {
                assert(boundary(
                    chunk,
                    at + 3 - short_of(chunk.codes[at + 1], chunk.codes[at + 2]),
                ));
            }
        }
    }
    assert forall|at: int|
        unpatched(patched).contains(at) == unpatched(chunk).remove(t).contains(at) by {
        if pending_at(patched, at) {
            assert(boundary(chunk, at - 1));
            if at != t {
                lemma_between(chunk, at - 1, n);
                assert(at - 1 + size_at(chunk, at - 1).unwrap() <= t - 1 || at - 1 >= t + 2);
                assert(pending_at(chunk, at));
            }
        }
        if pending_at(chunk, at) && at != t {
            assert(boundary(patched, at - 1));
            lemma_between(chunk, at - 1, n);
            assert(at - 1 + size_at(chunk, at - 1).unwrap() <= t - 1 || at - 1 >= t + 2);
            assert(pending_at(patched, at));
        }
    }
    assert(unpatched(patched) =~= unpatched(chunk).remove(t));
}

/// A function whose code is in order, with no forward jump left
/// unpatched, and so for every function among its constants, and theirs.
pub open spec fn program_ok(function: FunctionView) -> bool
    decreases function,
{
    &&& function_ok(function)
    &&& forall|i: int|
        0 <= i < function.chunk.constants.len() ==> match #[trigger] function.chunk.constants[i] {
            ValueView::Function(inner) => program_ok(inner),
            _ => true,
        }
}

/// Whether every function among the constants of a chunk is in order.
pub open spec fn constants_ok(chunk: ChunkView) -> bool {
    forall|i: int|
        0 <= i < chunk.constants.len() ==> match #[trigger] chunk.constants[i] {
            ValueView::Function(inner) => program_ok(inner),
            _ => true,
        }
}

/// Chunks with the same constants have their functions in order
/// together.
pub proof fn lemma_constants_same(earlier: ChunkView, later: ChunkView)
    requires
        later.constants == earlier.constants,
    ensures
        constants_ok(earlier) ==> constants_ok(later),
{
}

/// What an operation on a chunk keeps: the code stays in order, the
/// beginnings of its instructions stay, and so do the forward jumps that
/// have not been patched.
pub open spec fn kept(earlier: ChunkView, later: ChunkView) -> bool {
    &&& code_ok(later)
    &&& grows(earlier, later)
    &&& unpatched(later) == unpatched(earlier)
    &&& constants_ok(earlier) ==> constants_ok(later)
}

/// An instruction without operands keeps the code in order.
pub proof fn lemma_emit_op(chunk: ChunkView, op: Op)
    requires
        code_ok(chunk),
        op.operands_spec() == 0,
    ensures
        kept(chunk, chunk.emit(seq![op.byte_spec()])),
        boundary(chunk.emit(seq![op.byte_spec()]), chunk.codes.len() + 1 as int),
{
    lemma_extend(chunk, chunk.emit(seq![op.byte_spec()]));
    lemma_constants_same(chunk, chunk.emit(seq![op.byte_spec()]));
}

/// An instruction with a one-byte operand keeps the code in order.
pub proof fn lemma_emit_pair(chunk: ChunkView, op: Op, operand: u8)
    requires
        code_ok(chunk),
        op.operands_spec() == 1,
        op != Op::Closure,
        op == Op::SetLocal ==> operand >= 1,
    ensures
        kept(chunk, chunk.emit(seq![op.byte_spec(), operand])),
{
    lemma_extend(chunk, chunk.emit(seq![op.byte_spec(), operand]));
    lemma_constants_same(chunk, chunk.emit(seq![op.byte_spec(), operand]));
}

/// A constant keeps the code in order.
pub proof fn lemma_add_constant(chunk: ChunkView, constant: ValueView)
    requires
        code_ok(chunk),
        match constant {
            ValueView::Function(inner) => program_ok(inner),
            _ => true,
        },
    ensures
        kept(chunk, chunk.with_constant(constant)),
{
    lemma_more_constants(chunk, chunk.with_constant(constant));
}

/// A constant and the instruction that loads it keep the code in order.
pub proof fn lemma_emit_constant(chunk: ChunkView, constant: ValueView)
    requires
        code_ok(chunk),
        !(constant is Function),
        chunk.emit_constant(constant) is Ok,
    ensures
        kept(chunk, chunk.emit_constant(constant)->Ok_0),
{
    let added = chunk.with_constant(constant);
    lemma_add_constant(chunk, constant);
    lemma_emit_pair(added, Op::Constant, chunk.constants.len() as u8);
    lemma_grows_twice(chunk, added, chunk.emit_constant(constant)->Ok_0);
}

/// A forward jump with a placeholder keeps the code in order, and is one
/// more jump that has not been patched.
pub proof fn lemma_emit_jump(chunk: ChunkView, op: Op)
    requires
        code_ok(chunk),
        op == Op::Jump || op == Op::JumpIfFalse,
    ensures
        code_ok(chunk.emit(ChunkView::jump_bytes(op))),
        grows(chunk, chunk.emit(ChunkView::jump_bytes(op))),
        unpatched(chunk.emit(ChunkView::jump_bytes(op))) == unpatched(chunk).insert(
            chunk.codes.len() + 1 as int,
        ),
        !unpatched(chunk).contains(chunk.codes.len() + 1 as int),
        constants_ok(chunk) ==> constants_ok(chunk.emit(ChunkView::jump_bytes(op))),
{
    lemma_extend(chunk, chunk.emit(ChunkView::jump_bytes(op)));
    lemma_constants_same(chunk, chunk.emit(ChunkView::jump_bytes(op)));
}

/// A loop back to the beginning of an instruction keeps the code in order.
pub proof fn lemma_emit_loop(chunk: ChunkView, start: u16)
    requires
        code_ok(chunk),
        boundary(chunk, start as int),
        chunk.emit_loop(start) is Ok,
    ensures
        kept(chunk, chunk.emit_loop(start)->Ok_0),
{
    crate::laws::lemma_loop_lands_on_start(chunk, start);
    lemma_extend(chunk, chunk.emit_loop(start)->Ok_0);
    lemma_constants_same(chunk, chunk.emit_loop(start)->Ok_0);
}

/// The operand bytes of captures are two for each capture.
pub proof fn lemma_capture_bytes(upvalues: Seq<Capture>)
    ensures
        ChunkView::capture_bytes(upvalues).len() == 2 * upvalues.len(),
    decreases upvalues.len(),
{
    if upvalues.len() > 0 {
        lemma_capture_bytes(upvalues.drop_last());
    }
}

/// The instruction that builds a closure keeps the code in order, where
/// the function declares as many captured variables as there are captures.
pub proof fn lemma_emit_closure(chunk: ChunkView, function: FunctionView, upvalues: Seq<Capture>)
    requires
        code_ok(chunk),
        program_ok(function),
        function.upvalue_count == upvalues.len(),
        chunk.emit_closure(function, upvalues) is Ok,
    ensures
        kept(chunk, chunk.emit_closure(function, upvalues)->Ok_0),
{
    let added = chunk.with_constant(ValueView::Function(function));
    let emitted = chunk.emit_closure(function, upvalues)->Ok_0;
    lemma_add_constant(chunk, ValueView::Function(function));
    lemma_capture_bytes(upvalues);
    lemma_extend(added, emitted);
    lemma_constants_same(added, emitted);
    lemma_grows_twice(chunk, added, emitted);
}

/// Instructions `Pop` keep the code in order.
pub proof fn lemma_emit_pops(chunk: ChunkView, count: nat)
    requires
        code_ok(chunk),
    ensures
        kept(chunk, chunk.emit(crate::grammar::pops(count))),
    decreases count,
{
    if count == 0 {
        assert(chunk.emit(crate::grammar::pops(0)).codes =~= chunk.codes);
        lemma_grows_self(chunk);
    } else {
        let before = chunk.emit(crate::grammar::pops((count - 1) as nat));
        lemma_emit_pops(chunk, (count - 1) as nat);
        lemma_emit_op(before, Op::Pop);
        assert(before.emit(seq![Op::Pop.byte_spec()]).codes =~= chunk.emit(
            crate::grammar::pops(count),
        ).codes);
        lemma_grows_twice(chunk, before, chunk.emit(crate::grammar::pops(count)));
    }
}

/// Two instructions without operands keep the code in order.
pub proof fn lemma_emit_two(chunk: ChunkView, first: Op, second: Op)
    requires
        code_ok(chunk),
        first.operands_spec() == 0,
        second.operands_spec() == 0,
    ensures
        kept(chunk, chunk.emit(seq![first.byte_spec(), second.byte_spec()])),
{
    let middle = chunk.emit(seq![first.byte_spec()]);
    lemma_emit_op(chunk, first);
    lemma_emit_op(middle, second);
    assert(middle.emit(seq![second.byte_spec()]).codes =~= chunk.emit(
        seq![first.byte_spec(), second.byte_spec()],
    ).codes);
    lemma_grows_twice(chunk, middle, chunk.emit(seq![first.byte_spec(), second.byte_spec()]));
}

/// Whether the code of every function that the compiler is inside of is in
/// order, and so are the functions among its constants.
#[verifier::opaque]
pub open spec fn laid_out(s: State) -> bool {
    forall|i: int|
        #![trigger s.compilers[i]]
        0 <= i < s.compilers.len() ==> code_ok(s.compilers[i].chunk()) && constants_ok(
            s.compilers[i].chunk(),
        )
}

/// Whether the later state keeps, for every function that the compiler is
/// inside of, the beginnings of its instructions and the forward jumps that
/// have not been patched.
#[verifier::opaque]
pub open spec fn same_layout(earlier: State, later: State) -> bool {
    &&& later.compilers.len() == earlier.compilers.len()
    &&& forall|i: int|
        #![trigger earlier.compilers[i]]
        #![trigger later.compilers[i]]
        0 <= i < earlier.compilers.len() ==> grows(
            earlier.compilers[i].chunk(),
            later.compilers[i].chunk(),
        ) && unpatched(later.compilers[i].chunk()) == unpatched(earlier.compilers[i].chunk())
}

/// Whether the later state keeps the layout of the functions that enclose
/// the innermost one, and the beginnings of the instructions of the innermost
/// one.
#[verifier::opaque]
pub open spec fn outer_layout(earlier: State, later: State) -> bool {
    &&& later.compilers.len() == earlier.compilers.len()
    &&& earlier.compilers.len() >= 1
    &&& forall|i: int|
        #![trigger earlier.compilers[i]]
        #![trigger later.compilers[i]]
        0 <= i < earlier.compilers.len() - 1 ==> grows(
            earlier.compilers[i].chunk(),
            later.compilers[i].chunk(),
        ) && unpatched(later.compilers[i].chunk()) == unpatched(earlier.compilers[i].chunk())
    &&& grows(earlier.chunk(), later.chunk())
}

/// The state before the first token is laid out.
pub proof fn lemma_start_laid_out(s: State)
    requires
        s.compilers == seq![CompilerView::script()],
    ensures
        laid_out(s),
{
    reveal(laid_out);
    lemma_empty_ok();
}

/// The code of the innermost function of a state that is laid out is in
/// order.
pub proof fn lemma_current_ok(s: State)
    requires
        laid_out(s),
        s.compilers.len() >= 1,
    ensures
        code_ok(s.chunk()),
        constants_ok(s.chunk()),
{
    reveal(laid_out);
    assert(code_ok(s.compilers[s.compilers.len() - 1].chunk()));
}

/// Changing the chunk of the innermost function into one that is in order
/// keeps the state laid out.
pub proof fn lemma_rewrite(s: State, chunk: ChunkView)
    requires
        s.compilers.len() >= 1,
        laid_out(s),
        code_ok(chunk),
        constants_ok(chunk),
        grows(s.chunk(), chunk),
    ensures
        laid_out(s.with_chunk(chunk)),
        outer_layout(s, s.with_chunk(chunk)),
        unpatched(chunk) == unpatched(s.chunk()) ==> same_layout(s, s.with_chunk(chunk)),
{
    reveal(laid_out);
    reveal(same_layout);
    reveal(outer_layout);
    let after = s.with_chunk(chunk);
    assert forall|i: int|
        #![trigger after.compilers[i]]
        0 <= i < after.compilers.len() implies code_ok(after.compilers[i].chunk())
        && constants_ok(after.compilers[i].chunk()) by {
        if i < s.compilers.len() - 1 {
            assert(after.compilers[i] == s.compilers[i]);
        }
    }
    assert forall|i: int|
        #![trigger s.compilers[i]]
        #![trigger after.compilers[i]]
        0 <= i < s.compilers.len() - 1 implies grows(
        s.compilers[i].chunk(),
        after.compilers[i].chunk(),
    ) && unpatched(after.compilers[i].chunk()) == unpatched(s.compilers[i].chunk()) by {
        assert(after.compilers[i] == s.compilers[i]);
    }
}

/// A state whose functions have the chunks of another is laid out like it.
pub proof fn lemma_same_chunks(earlier: State, later: State)
    requires
        laid_out(earlier),
        later.compilers.len() == earlier.compilers.len(),
        forall|i: int|
            0 <= i < earlier.compilers.len() ==> (#[trigger] later.compilers[i]).chunk()
                == earlier.compilers[i].chunk(),
    ensures
        laid_out(later),
        same_layout(earlier, later),
{
    reveal(laid_out);
    reveal(same_layout);
    assert forall|i: int|
        #![trigger later.compilers[i]]
        0 <= i < later.compilers.len() implies code_ok(later.compilers[i].chunk())
        && constants_ok(later.compilers[i].chunk()) by {
        assert(later.compilers[i].chunk() == earlier.compilers[i].chunk());
        assert(code_ok(earlier.compilers[i].chunk()));
    }
    assert forall|i: int|
        #![trigger earlier.compilers[i]]
        #![trigger later.compilers[i]]
        0 <= i < earlier.compilers.len() implies grows(
        earlier.compilers[i].chunk(),
        later.compilers[i].chunk(),
    ) && unpatched(later.compilers[i].chunk()) == unpatched(earlier.compilers[i].chunk()) by {
        assert(later.compilers[i].chunk() == earlier.compilers[i].chunk());
    }
}

/// A state that differs from another only in the scopes, the captures and
/// the arity of the innermost function is laid out like it.
pub proof fn lemma_same_code(earlier: State, later: State)
    requires
        laid_out(earlier),
        earlier.compilers.len() >= 1,
        later.compilers.len() == earlier.compilers.len(),
        later.compilers.drop_last() == earlier.compilers.drop_last(),
        later.chunk() == earlier.chunk(),
    ensures
        laid_out(later),
        same_layout(earlier, later),
{
    assert forall|i: int| 0 <= i < earlier.compilers.len() implies (
    #[trigger] later.compilers[i]).chunk() == earlier.compilers[i].chunk() by {
        if i < earlier.compilers.len() - 1 {
            assert(later.compilers.drop_last()[i] == later.compilers[i]);
            assert(earlier.compilers.drop_last()[i] == earlier.compilers[i]);
        } else {
            assert(i == later.compilers.len() - 1);
            assert(later.compilers[i] == later.compilers.last());
            assert(earlier.compilers[i] == earlier.compilers.last());
            assert(later.chunk() == later.compilers.last().chunk());
        }
    }
    lemma_same_chunks(earlier, later);
}

/// A function that has been compiled inside of others leaves their layout
/// as it found it: `entered` is the state with the function's compiler on top
/// of those of `earlier`, `inside` the state at the end of the function, and
/// `later` that state without the function's compiler.
pub proof fn lemma_left_function(earlier: State, entered: State, inside: State, later: State)
    requires
        laid_out(inside),
        inside.compilers.len() >= 1,
        entered.compilers.len() == earlier.compilers.len() + 1,
        entered.compilers.drop_last() == earlier.compilers,
        same_layout(entered, inside),
        later.compilers == inside.compilers.drop_last(),
    ensures
        laid_out(later),
        same_layout(earlier, later),
{
    reveal(laid_out);
    reveal(same_layout);
    assert forall|i: int|
        #![trigger later.compilers[i]]
        0 <= i < later.compilers.len() implies code_ok(later.compilers[i].chunk())
        && constants_ok(later.compilers[i].chunk()) by {
        assert(later.compilers[i] == inside.compilers[i]);
    }
    assert forall|i: int|
        #![trigger earlier.compilers[i]]
        #![trigger later.compilers[i]]
        0 <= i < earlier.compilers.len() implies grows(
        earlier.compilers[i].chunk(),
        later.compilers[i].chunk(),
    ) && unpatched(later.compilers[i].chunk()) == unpatched(earlier.compilers[i].chunk()) by {
        assert(later.compilers[i] == inside.compilers[i]);
        assert(earlier.compilers[i] == entered.compilers.drop_last()[i]);
        assert(entered.compilers[i] == earlier.compilers[i]);
    }
}

/// A fresh compiler on top of the others keeps the state laid out.
pub proof fn lemma_entered_laid_out(s: State, name: Seq<char>)
    requires
        laid_out(s),
    ensures
        laid_out(s.function_compiler(name)),
{
    reveal(laid_out);
    lemma_empty_ok();
    let after = s.function_compiler(name);
    assert forall|i: int|
        #![trigger after.compilers[i]]
        0 <= i < after.compilers.len() implies code_ok(after.compilers[i].chunk())
        && constants_ok(after.compilers[i].chunk()) by {
        if i < s.compilers.len() {
            assert(after.compilers[i] == s.compilers[i]);
        }
    }
}

/// Without the compiler of its innermost function, a state stays laid out.
pub proof fn lemma_left_compiler(inside: State, later: State)
    requires
        laid_out(inside),
        inside.compilers.len() >= 1,
        later.compilers == inside.compilers.drop_last(),
    ensures
        laid_out(later),
{
    reveal(laid_out);
    assert forall|i: int|
        #![trigger later.compilers[i]]
        0 <= i < later.compilers.len() implies code_ok(later.compilers[i].chunk())
        && constants_ok(later.compilers[i].chunk()) by {
        assert(later.compilers[i] == inside.compilers[i]);
    }
}

/// The function of a compiler whose code is in order and has no forward
/// jump left unpatched is in order.
pub proof fn lemma_finished_ok(s: State)
    requires
        s.compilers.len() >= 1,
        code_ok(s.chunk()),
        constants_ok(s.chunk()),
        unpatched(s.chunk()) == Set::<int>::empty(),
    ensures
        program_ok(s.current().end()),
{
}

/// Keeping the layout carries over.
pub broadcast proof fn lemma_same_layout_twice(first: State, second: State, third: State)
    requires
        #[trigger] same_layout(first, second),
        #[trigger] same_layout(second, third),
    ensures
        same_layout(first, third),
{
    reveal(same_layout);
    assert forall|i: int|
        #![trigger first.compilers[i]]
        #![trigger third.compilers[i]]
        0 <= i < first.compilers.len() implies grows(
        first.compilers[i].chunk(),
        third.compilers[i].chunk(),
    ) && unpatched(third.compilers[i].chunk()) == unpatched(first.compilers[i].chunk()) by {
        lemma_grows_twice(
            first.compilers[i].chunk(),
            second.compilers[i].chunk(),
            third.compilers[i].chunk(),
        );
    }
}

/// A state that keeps the beginnings of the instructions of another, and
/// in its innermost function the forward jumps that have not been patched,
/// keeps its layout.
pub broadcast proof fn lemma_outer_to_same(earlier: State, later: State)
    requires
        #[trigger] outer_layout(earlier, later),
        unpatched(later.chunk()) == unpatched(earlier.chunk()),
    ensures
        same_layout(earlier, later),
{
    reveal(same_layout);
    reveal(outer_layout);
}

/// Keeping the outer layout carries over.
pub broadcast proof fn lemma_outer_layout_twice(first: State, second: State, third: State)
    requires
        #[trigger] outer_layout(first, second),
        #[trigger] outer_layout(second, third),
    ensures
        outer_layout(first, third),
{
    reveal(outer_layout);
    assert forall|i: int|
        #![trigger first.compilers[i]]
        #![trigger third.compilers[i]]
        0 <= i < first.compilers.len() - 1 implies grows(
        first.compilers[i].chunk(),
        third.compilers[i].chunk(),
    ) && unpatched(third.compilers[i].chunk()) == unpatched(first.compilers[i].chunk()) by {
        lemma_grows_twice(
            first.compilers[i].chunk(),
            second.compilers[i].chunk(),
            third.compilers[i].chunk(),
        );
    }
    lemma_grows_twice(first.chunk(), second.chunk(), third.chunk());
}

/// Keeping the layout keeps the outer layout, and the forward jumps of the
/// innermost function that have not been patched.
pub broadcast proof fn lemma_same_to_outer(earlier: State, later: State)
    requires
        #[trigger] same_layout(earlier, later),
        earlier.compilers.len() >= 1,
    ensures
        outer_layout(earlier, later),
        unpatched(later.chunk()) == unpatched(earlier.chunk()),
{
    reveal(same_layout);
    reveal(outer_layout);
    assert(grows(
        earlier.compilers[earlier.compilers.len() - 1].chunk(),
        later.compilers[earlier.compilers.len() - 1].chunk(),
    ));
}

/// Where an instruction of the innermost function begins, one begins as
/// long as the outer layout is kept.
pub broadcast proof fn lemma_boundary_stays(earlier: State, later: State, at: int)
    requires
        #[trigger] outer_layout(earlier, later),
        #[trigger] boundary(earlier.chunk(), at),
    ensures
        boundary(later.chunk(), at),
{
    reveal(outer_layout);
}

pub broadcast group group_layout {
    lemma_same_layout_twice,
    lemma_outer_to_same,
    lemma_outer_layout_twice,
    lemma_same_to_outer,
    lemma_boundary_stays,
}

} // verus!
