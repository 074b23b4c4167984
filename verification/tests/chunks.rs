use lox_vm::chunk::Op;
use lox_vm::compiler::Compiler;
use lox_vm::scopes::{Capture, Local, Scope, Scopes};
use lox_vm::value::{Function, Value};
use lox_vm::Chunk;

fn render(bits: u64) -> String {
    format!("{}", f64::from_bits(bits))
}

#[test]
fn op_bytes_round_trip() {
    let ops = [
        Op::Constant,
        Op::Nil,
        Op::True,
        Op::False,
        Op::Pop,
        Op::GetLocal,
        Op::SetLocal,
        Op::GetGlobal,
        Op::DefineGlobal,
        Op::SetGlobal,
        Op::GetUpvalue,
        Op::SetUpvalue,
        Op::Equal,
        Op::Greater,
        Op::Less,
        Op::Add,
        Op::Subtract,
        Op::Multiply,
        Op::Divide,
        Op::Not,
        Op::Negate,
        Op::Print,
        Op::Jump,
        Op::JumpIfFalse,
        Op::Loop,
        Op::Call,
        Op::Closure,
        Op::Return,
    ];
    for (i, op) in ops.iter().enumerate() {
        assert_eq!(op.byte() as usize, i);
        assert_eq!(Op::decode(i as u8), Some(*op));
    }
    for byte in 28..=255u8 {
        assert_eq!(Op::decode(byte), None);
    }
    assert_eq!(Op::Constant.operands(), 1);
    assert_eq!(Op::Jump.operands(), 2);
    assert_eq!(Op::Loop.operands(), 2);
    assert_eq!(Op::Closure.operands(), 1);
    assert_eq!(Op::Return.operands(), 0);
    assert_eq!(Op::JumpIfFalse.name(), "JumpIfFalse");
    assert_eq!(Op::DefineGlobal.name(), "DefineGlobal");
}

#[test]
fn emitters_append_their_bytes() {
    let mut chunk = Chunk::new();
    assert_eq!(chunk.code_len(), Ok(0));
    chunk.emit_op(Op::Nil);
    chunk.emit_define_global(7);
    chunk.emit_get_global(8);
    chunk.emit_set_global(9);
    chunk.emit_get_local(1);
    chunk.emit_set_local(2);
    chunk.emit_get_upvalue(3);
    chunk.emit_set_upvalue(4);
    chunk.emit_call(5);
    chunk.emit_upvalue(Capture { is_local: true, index: 6 });
    chunk.emit_upvalue(Capture { is_local: false, index: 0 });
    assert_eq!(
        chunk.codes,
        vec![1, 8, 7, 7, 8, 9, 9, 5, 1, 6, 2, 10, 3, 11, 4, 25, 5, 1, 6, 0, 0]
    );
    assert_eq!(chunk.code_len(), Ok(21));
    assert!(chunk.constants.is_empty());
}

#[test]
fn constants_get_consecutive_indices() {
    let mut chunk = Chunk::new();
    assert_eq!(chunk.add_constant(Value::nil()), Ok(0));
    assert_eq!(chunk.add_constant(Value::bool(true)), Ok(1));
    chunk.emit_constant(Value::string("x")).unwrap();
    assert_eq!(chunk.codes, vec![0, 2]);
    assert_eq!(chunk.constants.len(), 3);
}

#[test]
fn the_pool_holds_256_constants() {
    let mut chunk = Chunk::new();
    for i in 0..256u64 {
        assert_eq!(chunk.add_constant(Value::number(i)), Ok(i as u8));
    }
    assert_eq!(
        chunk.add_constant(Value::nil()).unwrap_err(),
        "Too many constants in one chunk."
    );
    assert_eq!(
        chunk.emit_constant(Value::nil()).unwrap_err(),
        "Too many constants in one chunk."
    );
    assert_eq!(
        chunk.emit_closure(Function::new_function("f"), &Vec::new()).unwrap_err(),
        "Too many constants in one chunk."
    );
    assert_eq!(chunk.constants.len(), 256);
    assert!(chunk.codes.is_empty());
}

#[test]
fn jump_is_patched_low_byte_first() {
    let mut chunk = Chunk::new();
    chunk.emit_op(Op::True);
    let start = chunk.emit_jump(Op::JumpIfFalse).unwrap();
    assert_eq!(start, 2);
    assert_eq!(chunk.codes, vec![2, 23, 0xff, 0xff]);
    for _ in 0..0x0102 {
        chunk.emit_op(Op::Nil);
    }
    chunk.patch_jump(start).unwrap();
    assert_eq!(&chunk.codes[..4], &[2, 23, 0x02, 0x01]);
    assert_eq!(start as usize + 2 + 0x0102, chunk.codes.len());
}

#[test]
fn jump_patched_at_once_has_distance_zero() {
    let mut chunk = Chunk::new();
    let start = chunk.emit_jump(Op::Jump).unwrap();
    assert_eq!(start, 1);
    chunk.patch_jump(start).unwrap();
    assert_eq!(chunk.codes, vec![22, 0, 0]);
}

#[test]
fn patch_outside_the_code_fails() {
    let mut chunk = Chunk::new();
    chunk.emit_op(Op::Nil);
    assert_eq!(chunk.patch_jump(0).unwrap_err(), "The index is out of bound");
    assert_eq!(chunk.patch_jump(5).unwrap_err(), "The index is out of bound");
    assert_eq!(chunk.codes, vec![1]);
}

#[test]
fn loop_jumps_back_to_its_start() {
    let mut chunk = Chunk::new();
    chunk.emit_op(Op::Nil);
    chunk.emit_op(Op::Pop);
    chunk.emit_loop(0).unwrap();
    assert_eq!(chunk.codes, vec![1, 4, 24, 5, 0]);
    let mut chunk = Chunk::new();
    for _ in 0..0x0200 {
        chunk.emit_op(Op::Nil);
    }
    chunk.emit_loop(3).unwrap();
    let at = 0x0200;
    assert_eq!(&chunk.codes[at..], &[24, 0x00, 0x02]);
    assert_eq!(at + 3 - 0x0200, 3);
}

#[test]
fn long_code_is_refused() {
    let mut chunk = Chunk::new();
    for _ in 0..0xfffc {
        chunk.emit_op(Op::Nil);
    }
    assert_eq!(chunk.emit_loop(0).unwrap(), ());
    assert_eq!(chunk.code_len(), Ok(0xffff));
    let mut long = chunk.clone();
    assert_eq!(long.emit_loop(0).unwrap_err(), "Loop body too large.");
    assert_eq!(long.codes.len(), 0xffff);
    assert_eq!(long.emit_loop(3).unwrap(), ());
    assert_eq!(long.code_len().unwrap_err(), "Too much code...");
    assert_eq!(long.patch_jump(0).unwrap_err(), "Too much code to jump over.");
    let mut jumped = chunk.clone();
    assert_eq!(jumped.emit_jump(Op::Jump).unwrap_err(), "Too much code...");
    assert_eq!(jumped.codes.len(), 0xffff + 3);
    let mut short = Chunk::new();
    for _ in 0..0xfffc {
        short.emit_op(Op::Nil);
    }
    assert_eq!(short.emit_jump(Op::Jump), Ok(0xfffd));
    short.patch_jump(0xfffd).unwrap();
    assert_eq!(&short.codes[0xfffc..], &[22, 0, 0]);
}

#[test]
fn loop_before_its_start_is_refused() {
    let mut chunk = Chunk::new();
    assert_eq!(chunk.emit_loop(4).unwrap_err(), "Loop body too large.");
    assert!(chunk.codes.is_empty());
    chunk.emit_loop(3).unwrap();
    assert_eq!(chunk.codes, vec![24, 0, 0]);
}

#[test]
fn closure_instruction_carries_its_captures() {
    let mut chunk = Chunk::new();
    chunk.add_constant(Value::nil()).unwrap();
    let mut function = Function::new_function("inner");
    function.upvalue_count = 2;
    let captures = vec![Capture { is_local: true, index: 3 }, Capture { is_local: false, index: 1 }];
    chunk.emit_closure(function, &captures).unwrap();
    assert_eq!(chunk.codes, vec![26, 1, 1, 3, 0, 1]);
    assert_eq!(
        chunk.debug_bytecodes("== test ==", &render),
        "== test ==\n\
         0000 Closure             1 <fun inner>\n\
         0002 |                     local 3\n\
         0004 |                     upvalue 1\n"
    );
}

#[test]
fn disassembly_shows_each_kind_of_instruction() {
    let mut chunk = Chunk::new();
    chunk.emit_constant(Value::number(1.5f64.to_bits())).unwrap();
    chunk.emit_get_local(12);
    chunk.emit_call(3);
    let start = chunk.emit_jump(Op::JumpIfFalse).unwrap();
    chunk.emit_op(Op::Pop);
    chunk.patch_jump(start).unwrap();
    chunk.emit_loop(2).unwrap();
    let name = chunk.add_constant(Value::string("g")).unwrap();
    chunk.emit_define_global(name);
    chunk.emit_op(Op::Return);
    assert_eq!(
        chunk.debug_bytecodes("== all ==", &render),
        "== all ==\n\
         0000 Constant            0 '1.5'\n\
         0002 GetLocal           12\n\
         0004 Call                3\n\
         0006 JumpIfFalse         6 -> 10\n\
         0009 Pop\n\
         0010 Loop               10 -> 2\n\
         0013 DefineGlobal        1 '\"g\"'\n\
         0015 Return\n"
    );
}

#[test]
fn disassembly_stops_before_bytes_that_are_no_instruction() {
    let mut chunk = Chunk::new();
    chunk.emit_op(Op::Nil);
    chunk.codes.push(200);
    chunk.emit_op(Op::Nil);
    assert_eq!(chunk.debug_bytecodes("x", &render), "x\n0000 Nil\n");
    let mut chunk = Chunk::new();
    chunk.emit_op(Op::Pop);
    chunk.codes.push(Op::Constant.byte());
    assert_eq!(chunk.debug_bytecodes("x", &render), "x\n0000 Pop\n");
    let mut chunk = Chunk::new();
    chunk.emit_get_global(0);
    assert_eq!(chunk.debug_bytecodes("x", &render), "x\n");
    let mut chunk = Chunk::new();
    chunk.codes.push(Op::Jump.byte());
    chunk.codes.push(1);
    assert_eq!(chunk.debug_bytecodes("x", &render), "x\n");
    assert_eq!(Chunk::new().debug_bytecodes("empty", &render), "empty\n");
}

#[test]
fn local_starts_uninitialized() {
    let mut local = Local::new_uninit(4);
    assert_eq!(local, Local { is_init: false, is_captured: false, index: 4 });
    local.mark_init();
    assert_eq!(local, Local { is_init: true, is_captured: false, index: 4 });
    local.mark_captured();
    assert_eq!(local, Local { is_init: true, is_captured: true, index: 4 });
}

#[test]
fn scope_finds_the_latest_binding() {
    let mut scope = Scope::new();
    assert_eq!(scope.len(), 0);
    assert!(!scope.has("a"));
    assert!(scope.get("a").is_none());
    scope.define("a".to_string(), 1);
    scope.define("b".to_string(), 2);
    scope.define("a".to_string(), 3);
    assert_eq!(scope.len(), 3);
    assert!(scope.has("a") && scope.has("b") && !scope.has("c"));
    assert_eq!(scope.get("a").unwrap().index, 3);
    assert_eq!(scope.get("b").unwrap().index, 2);
    scope.get_mut("a").unwrap().mark_init();
    assert!(scope.get("a").unwrap().is_init);
    assert!(!scope.get("b").unwrap().is_init);
    assert!(scope.get_mut("c").is_none());
    assert!(scope.set("b", Local { is_init: true, is_captured: true, index: 9 }));
    assert_eq!(*scope.get("b").unwrap(), Local { is_init: true, is_captured: true, index: 9 });
    assert!(!scope.set("c", Local::new_uninit(0)));
    assert_eq!(scope.len(), 3);
}

#[test]
fn scopes_allocate_slots_from_one() {
    let mut scopes = Scopes::new();
    assert!(scopes.is_empty());
    assert_eq!(scopes.count, 1);
    assert_eq!(scopes.current_has("a"), None);
    assert_eq!(
        scopes.define_uninit_local("a".to_string()).unwrap_err(),
        "Can't define a local variable without scope."
    );
    assert!(scopes.pop().is_none());
    scopes.push();
    assert!(!scopes.is_empty());
    assert_eq!(scopes.current_has("a"), Some(false));
    scopes.define_uninit_local("a".to_string()).unwrap();
    assert_eq!(scopes.current_has("a"), Some(true));
    assert_eq!(
        scopes.resolve_local("a").unwrap_err(),
        "Can't read local variable in its own initializer."
    );
    scopes.mark_init_local("a");
    assert_eq!(
        scopes.resolve_local("a"),
        Ok(Some(Local { is_init: true, is_captured: false, index: 1 }))
    );
    scopes.push();
    assert_eq!(scopes.current_has("a"), Some(false));
    scopes.define_uninit_local("b".to_string()).unwrap();
    scopes.define_uninit_local("a".to_string()).unwrap();
    assert_eq!(scopes.count, 4);
    assert_eq!(
        scopes.resolve_local("a").unwrap_err(),
        "Can't read local variable in its own initializer."
    );
    scopes.mark_init_local("a");
    assert_eq!(scopes.resolve_local("a").unwrap().unwrap().index, 3);
    assert_eq!(scopes.lookup("b"), Some(Local { is_init: false, is_captured: false, index: 2 }));
    scopes.mark_captured_local("b");
    assert!(scopes.lookup("b").unwrap().is_captured);
    assert_eq!(scopes.resolve_local("c"), Ok(None));
    scopes.mark_init_local("c");
    let inner = scopes.pop().unwrap();
    assert_eq!(inner.len(), 2);
    assert_eq!(scopes.count, 2);
    assert_eq!(scopes.resolve_local("a").unwrap().unwrap().index, 1);
    assert_eq!(scopes.resolve_local("b"), Ok(None));
    let outer = scopes.pop().unwrap();
    assert_eq!(outer.len(), 1);
    assert_eq!(scopes.count, 1);
    assert!(scopes.is_empty());
}

#[test]
fn a_function_has_254_local_variables_at_most() {
    let mut scopes = Scopes::new();
    scopes.push();
    for i in 1..=254 {
        scopes.define_uninit_local(format!("v{}", i)).unwrap();
        assert_eq!(scopes.lookup(&format!("v{}", i)).unwrap().index as usize, i);
    }
    assert_eq!(scopes.count, 255);
    assert_eq!(
        scopes.define_uninit_local("last".to_string()).unwrap_err(),
        "Too many local variables in function."
    );
    assert_eq!(scopes.count, 255);
    assert_eq!(scopes.lookup("last"), None);
    assert_eq!(scopes.pop().unwrap().len(), 254);
    assert_eq!(scopes.count, 1);
}

#[test]
fn captures_are_noted_once() {
    let mut compiler = Compiler::function("f");
    assert_eq!(compiler.add_upvalue(3, true), Ok(0));
    assert_eq!(compiler.add_upvalue(3, false), Ok(1));
    assert_eq!(compiler.add_upvalue(3, true), Ok(0));
    assert_eq!(compiler.add_upvalue(4, true), Ok(2));
    assert_eq!(compiler.add_upvalue(3, false), Ok(1));
    assert_eq!(compiler.upvalues.len(), 3);
    let (function, captures) = compiler.end();
    assert_eq!(function.upvalue_count, 3);
    assert_eq!(
        captures,
        vec![
            Capture { is_local: true, index: 3 },
            Capture { is_local: false, index: 3 },
            Capture { is_local: true, index: 4 },
        ]
    );
}

#[test]
fn a_function_has_255_captures_at_most() {
    let mut compiler = Compiler::function("f");
    for i in 0..255u16 {
        assert_eq!(compiler.add_upvalue(i as u8, true), Ok(i as u8));
    }
    assert_eq!(
        compiler.add_upvalue(255, true).unwrap_err(),
        "Too many closure variables in function."
    );
    assert_eq!(compiler.add_upvalue(7, true), Ok(7));
    assert_eq!(compiler.upvalues.len(), 255);
}

#[test]
fn captures_resolve_through_enclosing_functions() {
    let mut outer = Compiler::script();
    outer.scopes.push();
    outer.scopes.define_uninit_local("x".to_string()).unwrap();
    outer.scopes.mark_init_local("x");
    outer.scopes.define_uninit_local("y".to_string()).unwrap();
    let middle = Compiler::function("middle");
    let inner = Compiler::function("inner");
    let mut stack = vec![outer, middle, inner];
    assert_eq!(Compiler::resolve_upvalue(&mut stack, "x"), Ok(Some(0)));
    assert_eq!(stack.len(), 3);
    assert_eq!(stack[2].upvalues, vec![Capture { is_local: false, index: 0 }]);
    assert_eq!(stack[1].upvalues, vec![Capture { is_local: true, index: 1 }]);
    assert!(stack[0].upvalues.is_empty());
    assert!(stack[0].scopes.lookup("x").unwrap().is_captured);
    assert_eq!(Compiler::resolve_upvalue(&mut stack, "x"), Ok(Some(0)));
    assert_eq!(stack[2].upvalues.len(), 1);
    assert_eq!(stack[1].upvalues.len(), 1);
    assert_eq!(Compiler::resolve_upvalue(&mut stack, "z"), Ok(None));
    assert_eq!(stack.len(), 3);
    assert_eq!(
        Compiler::resolve_upvalue(&mut stack, "y").unwrap_err(),
        "Can't read local variable in its own initializer."
    );
    let mut alone = vec![Compiler::script()];
    assert_eq!(Compiler::resolve_upvalue(&mut alone, "x"), Ok(None));
}

#[test]
fn compiler_emits_captures_into_its_chunk() {
    let mut compiler = Compiler::script();
    compiler.chunk().emit_op(Op::Nil);
    compiler.emit_upvalues(vec![
        Capture { is_local: true, index: 2 },
        Capture { is_local: false, index: 5 },
    ]);
    assert_eq!(compiler.function.chunk.codes, vec![1, 1, 2, 0, 5]);
}
