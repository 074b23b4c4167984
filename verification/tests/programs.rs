use lox_vm::chunk::Op;
use lox_vm::number::Arithmetic;
use lox_vm::parser::compile;
use lox_vm::value::{Closure, Function, Value};
use lox_vm::vm::CallFrame;
use lox_vm::{interpret, Chunk, Inspector, Parser, Scanner, VM};

fn parse(text: &str) -> Option<u64> {
    text.parse::<f64>().ok().map(f64::to_bits)
}

fn arithmetic(operation: Arithmetic, a: u64, b: u64) -> u64 {
    let (a, b) = (f64::from_bits(a), f64::from_bits(b));
    let r = match operation {
        Arithmetic::Add => a + b,
        Arithmetic::Subtract => a - b,
        Arithmetic::Multiply => a * b,
        Arithmetic::Divide => a / b,
    };
    r.to_bits()
}

fn render(bits: u64) -> String {
    format!("{}", f64::from_bits(bits))
}

const FUEL: u64 = 1_000_000;

/// What a program prints, one line for each `print`.
fn printed(source: &str) -> Result<Vec<String>, String> {
    let run = interpret(source, &parse, &arithmetic, FUEL)?;
    assert!(run.finished);
    Ok(run.printed.iter().map(|value| value.debug(&render)).collect())
}

fn compiler_message(source: &str) -> String {
    match compile(source, &parse) {
        Ok(_) => panic!("compiled: {}", source),
        Err(message) => message,
    }
}

fn machine_message(source: &str) -> String {
    compile(source, &parse).unwrap();
    match interpret(source, &parse, &arithmetic, FUEL) {
        Ok(_) => panic!("ran: {}", source),
        Err(message) => message,
    }
}

/// The stacks before each instruction of a program.
fn stacks(source: &str) -> Vec<Vec<String>> {
    let function = compile(source, &parse).unwrap();
    let mut vm = VM::from_function(function);
    let inspector = vm.run(Some(Inspector::new()), &arithmetic, FUEL).unwrap().unwrap();
    assert!(vm.is_halted());
    inspector
        .stack_snapshot
        .iter()
        .map(|stack| stack.iter().map(|value| value.debug(&render)).collect())
        .collect()
}

/// The functions of a program, in the order in which they were completed.
fn functions(source: &str) -> Vec<Function> {
    let mut parser = Parser::new(Scanner::new(source), Some(Inspector::new()), &parse);
    parser.advance().unwrap();
    parser.program().unwrap();
    parser.end_compiler();
    parser.into_inspector().unwrap().bytecode_snapshot
}

/// The positions where the instructions of a chunk begin, and its end.
fn boundaries(chunk: &Chunk) -> Vec<usize> {
    let mut at = 0;
    let mut starts = vec![0];
    while at < chunk.codes.len() {
        let op = Op::decode(chunk.codes[at]).unwrap();
        let mut size = 1 + op.operands();
        if op == Op::Closure {
            let function = chunk.constants[chunk.codes[at + 1] as usize].clone().as_function().unwrap();
            size += 2 * function.upvalue_count as usize;
        }
        at += size;
        starts.push(at);
    }
    assert_eq!(at, chunk.codes.len());
    starts
}

const PROGRAMS: [&str; 8] = [
    "if (true) print \"yes\"; else print \"no\";",
    "nil and \"bad\"; 1 or true;",
    "var a = 0; while (a < 3) { a = a + 1; }",
    "for (var a = 0; a < 3; a = a + 1) print a;",
    "for (;false;) {} var i = 0; for (; i < 2;) i = i + 1; for (var j = 0; j < 1; j = j + 1) {}",
    "fun f(a, b) { if (a) { return b; } else { while (b) { b = false; } } return a and b or 1; } f(1, 2);",
    "fun outer() { var x = 1; var y = 2; fun inner() { if (x > y) return x; return y; } return inner; } print outer()();",
    "{ var a = 1; { var b = a; if (a == b) { var c = 3; print c; } } }",
];

#[test]
fn every_jump_lands_on_an_instruction() {
    for source in PROGRAMS {
        let mut jumps = 0;
        for function in functions(source) {
            let chunk = &function.chunk;
            let starts = boundaries(chunk);
            for &at in &starts[..starts.len() - 1] {
                let op = Op::decode(chunk.codes[at]).unwrap();
                if op == Op::Jump || op == Op::JumpIfFalse || op == Op::Loop {
                    let offset = chunk.codes[at + 1] as usize + 256 * chunk.codes[at + 2] as usize;
                    let target = if op == Op::Loop { at + 3 - offset } else { at + 3 + offset };
                    assert!(target < chunk.codes.len(), "{} at {}", source, at);
                    assert!(starts.contains(&target), "{} at {}", source, at);
                    jumps += 1;
                }
            }
        }
        assert!(jumps > 0);
    }
}

#[test]
fn every_function_ends_with_nil_and_return() {
    for source in PROGRAMS {
        for function in functions(source) {
            let codes = &function.chunk.codes;
            assert_eq!(&codes[codes.len() - 2..], &[Op::Nil.byte(), Op::Return.byte()]);
        }
    }
}

#[test]
fn top_level_statements_leave_the_stack_as_it_was() {
    for statements in [
        vec![
            "1 + 2;",
            "print 3;",
            "var a = 4;",
            "a = a * 2;",
            "if (a) a; else 2;",
            "while (a < 10) a = a + 1;",
        ],
        vec![
            "for (var i = 0; i < 2; i = i + 1) { var t = i; }",
            "{ var x = 1; var y = 2; }",
            "for (;false;) {}",
        ],
        vec![
            "fun f(n) { var m = n; return m + 1; }",
            "f(1);",
            "print f(f(2));",
            "nil and f(1);",
            "true or f(1);",
        ],
    ] {
        let mut ends = Vec::new();
        for k in 0..statements.len() {
            let prefix = statements[..=k].join(" ");
            ends.push(compile(&prefix, &parse).unwrap().chunk.codes.len() - 2);
        }
        let source = statements.join(" ");
        let function = compile(&source, &parse).unwrap();
        let mut vm = VM::from_function(function);
        let mut seen = 0;
        while !vm.is_halted() {
            if vm.frames.len() == 1 && ends.contains(&vm.frames[0].index) {
                assert_eq!(vm.stack.len(), 1, "{} at {}", source, vm.frames[0].index);
                seen += 1;
            }
            let computed = match vm.pending() {
                Some((operation, a, b)) => arithmetic(operation, a, b),
                None => 0,
            };
            vm.step(computed).unwrap();
        }
        assert!(seen >= ends.len());
        assert!(vm.stack.is_empty());
    }
}

#[test]
fn slot_zero_is_the_callee_while_a_function_runs() {
    let source = "fun add(a, b) { var c = a + b; { var d = c; c = d * 2; } return c; } \
                  fun twice(f, x) { return f(f(x, x), x); } print twice(add, 1);";
    let function = compile(source, &parse).unwrap();
    let mut vm = VM::from_function(function);
    let mut calls = 0;
    while !vm.is_halted() {
        for frame in &vm.frames {
            let callee = &vm.stack[frame.start];
            assert_eq!(callee.debug(&render), frame.closure.debug());
            assert!(matches!(callee, Value::Closure(_)));
        }
        calls += (vm.frames.len() > 1) as usize;
        let computed = match vm.pending() {
            Some((operation, a, b)) => arithmetic(operation, a, b),
            None => 0,
        };
        vm.step(computed).unwrap();
    }
    assert!(calls > 10);
    assert_eq!(vm.output[0].debug(&render), "10");
}

#[test]
fn every_closure_has_the_captures_its_function_declares() {
    let source = "fun a() { var x = 1; var y = 2; fun b() { fun c() { return x + y; } return c; } return b; } \
                  var c = a()(); print c();";
    let function = compile(source, &parse).unwrap();
    let mut vm = VM::from_function(function);
    let mut closures = 0;
    while !vm.is_halted() {
        for value in vm.stack.iter().chain(vm.cells.iter()) {
            if let Value::Closure(closure) = value {
                assert_eq!(closure.upvalues.len(), closure.function.upvalue_count as usize);
                closures += 1;
            }
        }
        for frame in &vm.frames {
            assert_eq!(frame.closure.upvalues.len(), frame.closure.function.upvalue_count as usize);
        }
        let computed = match vm.pending() {
            Some((operation, a, b)) => arithmetic(operation, a, b),
            None => 0,
        };
        vm.step(computed).unwrap();
    }
    assert!(closures > 0);
    assert_eq!(vm.output[0].debug(&render), "3");
    let c = vm.global("c").unwrap().as_closure().unwrap();
    assert_eq!(c.function.upvalue_count, 2);
    assert_eq!(c.upvalues.len(), 2);
}

#[test]
fn a_defined_global_can_be_read() {
    assert_eq!(printed("var a = 7; print a;"), Ok(vec!["7".to_string()]));
    assert_eq!(printed("var a; print a;"), Ok(vec!["nil".to_string()]));
    assert_eq!(printed("var a = 1; var a = \"again\"; print a;"), Ok(vec!["\"again\"".to_string()]));
    let function = compile("var a = \"v\"; a;", &parse).unwrap();
    let mut vm = VM::from_function(function);
    vm.step(0).unwrap();
    vm.step(0).unwrap();
    assert_eq!(vm.global("a").unwrap().as_string(), Some("v".to_string()));
    assert_eq!(vm.stack.len(), 1);
    vm.step(0).unwrap();
    assert_eq!(vm.stack.len(), 2);
    assert_eq!(vm.stack[1].clone().as_string(), Some("v".to_string()));
}

#[test]
fn assigning_an_undefined_global_fails_and_defines_nothing() {
    assert_eq!(machine_message("a = 1;"), "Undefined variable.");
    let function = compile("a = 1;", &parse).unwrap();
    let mut vm = VM::from_function(function);
    vm.step(0).unwrap();
    let index = vm.frames[0].index;
    assert_eq!(vm.step(0).unwrap_err(), "Undefined variable.");
    assert!(vm.global("a").is_none());
    assert_eq!(vm.globals.len(), 0);
    assert_eq!(vm.frames[0].index, index);
    assert_eq!(vm.stack.len(), 2);
    assert!(!vm.is_halted());
    assert_eq!(vm.step(0).unwrap_err(), "Undefined variable.");
}

#[test]
fn and_or_skip_their_right_operand() {
    assert_eq!(printed("print false and missing();"), Ok(vec!["false".to_string()]));
    assert_eq!(printed("print nil and missing;"), Ok(vec!["nil".to_string()]));
    assert_eq!(printed("print true or missing();"), Ok(vec!["true".to_string()]));
    assert_eq!(printed("print 1 or missing;"), Ok(vec!["1".to_string()]));
    assert_eq!(machine_message("print true and missing();"), "Undefined variable.");
    assert_eq!(machine_message("print false or missing();"), "Undefined variable.");
    assert_eq!(printed("print 1 and 2; print nil or 3; print false or nil;"),
        Ok(vec!["2".to_string(), "3".to_string(), "nil".to_string()]));
}

#[test]
fn arithmetic_and_comparison() {
    assert_eq!(stacks("(-1 + 2) * 3 - -4;")[9], vec!["<script>", "7"]);
    assert_eq!(stacks("!(5 - 4 > 3 * 2 == !nil);")[11], vec!["<script>", "true"]);
    assert_eq!(stacks("\"aha\" + \"b\";")[3], vec!["<script>", "\"ahab\""]);
    assert_eq!(
        printed("print 7 / 2; print 1 < 2; print 2 <= 2; print 3 >= 4; print 1 != 1; print 1 == 1; print -(3);"),
        Ok(vec!["3.5", "true", "true", "false", "false", "true", "-3"].into_iter().map(String::from).collect())
    );
    assert_eq!(
        printed("print 1 / 0; print -1 / 0; print 0 / 0 == 0 / 0; print 0.1 + 0.2; print !0; print !\"\";"),
        Ok(vec!["inf", "-inf", "false", "0.30000000000000004", "false", "false"].into_iter().map(String::from).collect())
    );
    assert_eq!(printed("print 1 + 2 * 3 - 4 / 2; print (1 + 2) * 3; print 2 * 3 == 6 == true;"),
        Ok(vec!["5".to_string(), "9".to_string(), "true".to_string()]));
    assert_eq!(printed("print \"a\" == \"a\"; print \"a\" == \"b\"; print nil == false; print 1 == \"1\";"),
        Ok(vec!["true", "false", "false", "false"].into_iter().map(String::from).collect()));
}

#[test]
fn globals_after_assignment() {
    let source = "var a = \"aaa\"; var b = \"bbb\"; a = \"assign add \" + b; print a;";
    assert_eq!(printed(source), Ok(vec!["\"assign add bbb\"".to_string()]));
    let mut vm = VM::from_function(compile(source, &parse).unwrap());
    vm.run(None, &arithmetic, FUEL).unwrap();
    assert_eq!(vm.global("a").unwrap().as_string(), Some("assign add bbb".to_string()));
    assert_eq!(vm.global("b").unwrap().as_string(), Some("bbb".to_string()));
    assert!(vm.global("c").is_none());
}

#[test]
fn functions_and_parameters() {
    assert_eq!(
        printed("fun sum(a,b,c){ return a+b+c; }\nprint 4 + sum(5,6,7);"),
        Ok(vec!["22".to_string()])
    );
    assert_eq!(printed("fun f() {} print f(); print f;"), Ok(vec!["nil".to_string(), "<fun f>".to_string()]));
    assert_eq!(printed("fun f() { return; } print f();"), Ok(vec!["nil".to_string()]));
    assert_eq!(
        printed("fun fib(n) { if (n < 2) return n; return fib(n - 1) + fib(n - 2); } print fib(15);"),
        Ok(vec!["610".to_string()])
    );
    assert_eq!(
        printed("{ fun local(n) { return n + 1; } print local(4); }"),
        Ok(vec!["5".to_string()])
    );
}

#[test]
fn closures_keep_what_they_captured() {
    assert_eq!(
        printed("fun outer(){ var x=1; fun inner(){ print x; } return inner; }\nouter()();"),
        Ok(vec!["1".to_string()])
    );
    assert_eq!(
        printed("fun a(){ var x = 1; fun b(){ fun c(){ print x; } return c; } return b; } a()()();"),
        Ok(vec!["1".to_string()])
    );
    assert_eq!(
        printed("fun counter(){ var n = 0; fun next(){ n = n + 1; return n; } return next; } \
                 var c = counter(); print c(); print c(); var d = counter(); print d(); print c();"),
        Ok(vec!["1", "2", "1", "3"].into_iter().map(String::from).collect())
    );
    assert_eq!(
        printed("fun pair(){ var n = 0; fun get(){ return n; } fun outer(){ fun set(){ n = 5; } set(); return get; } return outer; } \
                 print pair()()();"),
        Ok(vec!["0".to_string()])
    );
}

#[test]
fn loops() {
    assert_eq!(
        printed("for (var a = 0; a < 3; a = a + 1) print a;"),
        Ok(vec!["0".to_string(), "1".to_string(), "2".to_string()])
    );
    assert_eq!(
        printed("var i = 0; var s = 0; while (i < 5) { i = i + 1; s = s + i; } print s;"),
        Ok(vec!["15".to_string()])
    );
    assert_eq!(
        printed("var n = 0; for (;;) { n = n + 1; if (n > 2) { print n; n = 100; } if (n == 100) { n = 7; } if (n == 7) { print \"done\"; n = -1; } if (n < 0) { print n; n = 1000; } if (n == 1000) { print \"out\"; n = 2000; } if (n == 2000) { n = 3000; } if (n == 3000) { stop(); } }")
            .unwrap_err(),
        "Undefined variable."
    );
    assert_eq!(
        printed("for (var i = 0; i < 2; i = i + 1) { for (var j = 0; j < 2; j = j + 1) { print i * 2 + j; } }"),
        Ok(vec!["0", "1", "2", "3"].into_iter().map(String::from).collect())
    );
}

#[test]
fn blocks_shadow_and_release_their_variables() {
    assert_eq!(
        printed("var a = \"global\"; { var a = \"outer\"; { var a = \"inner\"; print a; } print a; } print a;"),
        Ok(vec!["\"inner\"", "\"outer\"", "\"global\""].into_iter().map(String::from).collect())
    );
    assert_eq!(printed("{ var a = 1; { a = 2; } print a; }"), Ok(vec!["2".to_string()]));
}

#[test]
fn parse_errors() {
    for (source, message) in [
        (";", "Expect expression."),
        ("1 + ;", "Expect expression."),
        ("print class;", "Expect expression."),
        ("(1 + 2;", "Expect ')' after expression."),
        ("print 1", "Expect ';' after value."),
        ("print", "Expect ';' after value."),
        ("1 + 2", "Expect ';' after expression."),
        ("1 2;", "Expect ';' after expression."),
        ("var a = 1", "Expect ';' after variable declaration."),
        ("var a 1;", "Expect ';' after variable declaration."),
        ("fun f() { return 1 }", "Expect ';' after return value."),
        ("for (;1 2;) {}", "Expect ';' after loop condition."),
        ("if true) 1;", "Expect '(' after 'if'."),
        ("while true) 1;", "Expect '(' after 'while'."),
        ("for var a;;) 1;", "Expect '(' after 'for'."),
        ("if (true 1;", "Expect ')' after condition."),
        ("while (true 1;", "Expect ')' after condition."),
        ("for (;;1 {}", "Expect ')' after for clauses."),
        ("fun f() 1;", "Expect '{' before function body."),
        ("{ 1;", "Expect '}' after block."),
        ("fun f() { 1;", "Expect '}' after block."),
        ("var 1;", "Expect variable name."),
        ("var;", "Expect variable name."),
        ("fun 1() {}", "Expect function name."),
        ("fun f;", "Expect '(' after function name."),
        ("fun f(1) {}", "Expect parameter name."),
        ("fun f(a,) {}", "Expect parameter name."),
        ("fun f(a b) {}", "Expect ')' after parameters."),
        ("f(1 2);", "Expect ')' after arguments."),
        ("f(1, 2;", "Expect ')' after arguments."),
        ("1 = 2;", "Invalid assignment target."),
        ("a + b = 2;", "Invalid assignment target."),
        ("(a) = 2;", "Invalid assignment target."),
        ("a = b = c + d = 1;", "Invalid assignment target."),
        ("{ var a; var a; }", "Already a variable with this name in this scope."),
        ("fun f(a, a) {}", "Already a variable with this name in this scope."),
        ("{ fun f() {} var f; }", "Already a variable with this name in this scope."),
        ("{ var a = \"outer\"; { var a = a; } }", "Can't read local variable in its own initializer."),
        ("{ var a = a; }", "Can't read local variable in its own initializer."),
        ("return;", "Can't return from top-level code."),
        ("{ return 1; }", "Can't return from top-level code."),
        ("var s = \"open;", "Unterminated string."),
        ("var s = #;", "Unexpected character."),
        ("@", "Unexpected character."),
        ("print 1; \"", "Unterminated string."),
    ] {
        assert_eq!(compiler_message(source), message, "{}", source);
    }
}

#[test]
fn a_lexical_error_is_reported_when_the_compiler_reaches_it() {
    assert_eq!(compiler_message("+ ; @"), "Expect expression.");
    assert_eq!(compiler_message(") @"), "Unexpected character.");
    assert_eq!(compiler_message("print 1 ; @"), "Unexpected character.");
    assert_eq!(compiler_message("print @"), "Unexpected character.");
}

#[test]
fn limits_of_the_compiler() {
    let constants: String = (0..257).map(|i| format!("{};", i)).collect();
    assert_eq!(compiler_message(&constants), "Too many constants in one chunk.");
    let constants: String = (0..256).map(|i| format!("{};", i)).collect();
    assert!(compile(&constants, &parse).is_ok());

    let locals: String = (0..255).map(|i| format!("var v{};", i)).collect();
    assert_eq!(compiler_message(&format!("{{ {} }}", locals)), "Too many local variables in function.");
    let locals: String = (0..254).map(|i| format!("var v{};", i)).collect();
    assert!(compile(&format!("{{ {} }}", locals), &parse).is_ok());

    let parameters: Vec<String> = (0..255).map(|i| format!("p{}", i)).collect();
    assert_eq!(
        compiler_message(&format!("fun f({}) {{}}", parameters.join(","))),
        "Too many local variables in function."
    );
    let parameters: Vec<String> = (0..254).map(|i| format!("p{}", i)).collect();
    let function = compile(&format!("fun f({}) {{}}", parameters.join(",")), &parse).unwrap();
    assert_eq!(function.chunk.constants[1].clone().as_function().unwrap().arity, 254);

    let arguments = vec!["nil"; 256].join(",");
    assert_eq!(compiler_message(&format!("f({});", arguments)), "Can't have more than 255 arguments.");
    let arguments = vec!["nil"; 255].join(",");
    assert!(compile(&format!("f({});", arguments), &parse).is_ok());

    let outer: String = (0..200).map(|i| format!("var a{} = 0;", i)).collect();
    let middle: String = (0..200).map(|i| format!("var b{} = 0;", i)).collect();
    let uses = |count: usize| -> String {
        (0..count)
            .map(|i| if i < 200 { format!("a{};", i) } else { format!("b{};", i - 200) })
            .collect()
    };
    let nested = |count: usize| {
        format!(
            "fun outer() {{ {} fun middle() {{ {} fun inner() {{ {} }} }} }}",
            outer,
            middle,
            uses(count)
        )
    };
    assert_eq!(compiler_message(&nested(256)), "Too many closure variables in function.");
    assert!(compile(&nested(255), &parse).is_ok());
}

/// A statement of 64 bytes of code.
fn long_statement() -> String {
    format!("{}nil;", "!".repeat(62))
}

#[test]
fn long_then_branch_is_refused() {
    let body = long_statement().repeat(1024);
    assert_eq!(compiler_message(&format!("if (true) {{ {} }}", body)), "Too much code...");
}

#[test]
fn long_loop_body_is_refused() {
    let body = long_statement().repeat(1024);
    assert_eq!(compiler_message(&format!("while (true) {{ {} }}", body)), "Loop body too large.");
}

#[test]
fn longest_loop_body_compiles() {
    let body = long_statement().repeat(1023);
    let function = compile(&format!("while (true) {{ {} }}", body), &parse).unwrap();
    let codes = &function.chunk.codes;
    assert_eq!(codes.len(), 65483);
    assert_eq!(&codes[..5], &[2, 23, 0xc4, 0xff, 4]);
    assert_eq!(&codes[65477..], &[24, 0xc8, 0xff, 4, 1, 27]);
}

#[test]
fn runtime_errors() {
    for (source, message) in [
        ("-\"a\";", "Operand must be a number."),
        ("-nil;", "Operand must be a number."),
        ("1 < \"a\";", "Operand must be a number."),
        ("\"a\" > 1;", "Operand must be a number."),
        ("\"a\" <= \"b\";", "Operand must be a number."),
        ("1 - \"a\";", "Operand must be a number."),
        ("true * 2;", "Operand must be a number."),
        ("nil / nil;", "Operand must be a number."),
        ("\"a\" - \"b\";", "Operand must be a number."),
        ("1 + \"a\";", "Operands must be two numbers or two strings."),
        ("\"a\" + 1;", "Operands must be two numbers or two strings."),
        ("nil + nil;", "Operands must be two numbers or two strings."),
        ("true + false;", "Operands must be two numbers or two strings."),
        ("print x;", "Undefined variable."),
        ("x = 1;", "Undefined variable."),
        ("fun f() { return y; } f();", "Undefined variable."),
        ("fun f(a, b) {} f(1);", "Expected 2 arguments but got 1."),
        ("fun f() {} f(1, 2, 3);", "Expected 0 arguments but got 3."),
        ("fun f(a0,a1,a2,a3,a4,a5,a6,a7,a8,a9,b0,b1) {} f();", "Expected 12 arguments but got 0."),
        ("\"a\"();", "Can only call functions and classes."),
        ("nil();", "Can only call functions and classes."),
        ("1(2);", "Can only call functions and classes."),
        ("true();", "Can only call functions and classes."),
        ("fun f() { f(); } f();", "stack overflow."),
    ] {
        assert_eq!(machine_message(source), message, "{}", source);
    }
}

#[test]
fn frames_nest_254_calls_deep() {
    let source = |depth: usize| {
        format!("fun f(n) {{ if (n > 1) return f(n - 1); return n; }} print f({});", depth)
    };
    assert_eq!(printed(&source(254)), Ok(vec!["1".to_string()]));
    assert_eq!(machine_message(&source(255)), "stack overflow.");
}

#[test]
fn output_before_an_error_stays_in_the_machine() {
    let function = compile("print 1; print 2; print 3 + nil; print 4;", &parse).unwrap();
    let mut vm = VM::from_function(function);
    assert_eq!(
        vm.run(None, &arithmetic, FUEL).unwrap_err(),
        "Operands must be two numbers or two strings."
    );
    assert_eq!(vm.output.len(), 2);
    assert_eq!(vm.output[1].debug(&render), "2");
    assert!(!vm.is_halted());
    assert_eq!(vm.stack.len(), 3);
}

#[test]
fn fuel_bounds_a_run() {
    let run = interpret("var n = 0; while (true) { n = n + 1; print n; }", &parse, &arithmetic, 1000).unwrap();
    assert!(!run.finished);
    assert_eq!(run.printed.len(), 90);
    let run = interpret("print 1;", &parse, &arithmetic, 3).unwrap();
    assert!(!run.finished);
    assert_eq!(run.printed.len(), 1);
    let run = interpret("print 1;", &parse, &arithmetic, 5).unwrap();
    assert!(run.finished);
    let run = interpret("print 1;", &parse, &arithmetic, 0).unwrap();
    assert!(!run.finished && run.printed.is_empty());

    let mut vm = VM::from_function(compile("print 1 + 2; print 3;", &parse).unwrap());
    let mut inspector = Some(Inspector::new());
    let mut rounds = 0;
    while !vm.is_halted() {
        inspector = vm.run(inspector, &arithmetic, 2).unwrap();
        rounds += 1;
    }
    assert_eq!(rounds, 4);
    assert_eq!(vm.output.len(), 2);
    assert_eq!(inspector.unwrap().stack_snapshot.len(), 8);
    assert!(vm.run(None, &arithmetic, 10).unwrap().is_none());
    assert_eq!(vm.step(0), Ok(()));
    assert!(vm.pending().is_none());
}

#[test]
fn the_machine_asks_for_arithmetic_only() {
    let mut vm = VM::from_function(compile("1 + 2; \"a\" + \"b\"; 3 < 4; 6 / 3;", &parse).unwrap());
    let mut asked = Vec::new();
    while !vm.is_halted() {
        let computed = match vm.pending() {
            Some((operation, a, b)) => {
                asked.push((operation, f64::from_bits(a), f64::from_bits(b)));
                arithmetic(operation, a, b)
            },
            None => 12345,
        };
        vm.step(computed).unwrap();
    }
    assert_eq!(asked, vec![(Arithmetic::Add, 1.0, 2.0), (Arithmetic::Divide, 6.0, 3.0)]);
}

#[test]
fn malformed_bytecode_is_an_error() {
    let run = |chunk: Chunk| {
        let mut function = Function::new_script();
        function.chunk = chunk;
        let mut vm = VM::from_function(function);
        vm.run(None, &arithmetic, FUEL)
    };
    let mut chunk = Chunk::new();
    chunk.codes.push(99);
    assert_eq!(run(chunk).unwrap_err(), "Malformed bytecode.");
    assert_eq!(run(Chunk::new()).unwrap_err(), "Malformed bytecode.");
    let mut chunk = Chunk::new();
    chunk.emit_op(Op::Pop);
    chunk.emit_op(Op::Pop);
    assert_eq!(run(chunk).unwrap_err(), "Malformed bytecode.");
    let mut chunk = Chunk::new();
    chunk.emit_get_local(1);
    assert_eq!(run(chunk).unwrap_err(), "Malformed bytecode.");
    let mut chunk = Chunk::new();
    chunk.codes.push(Op::Constant.byte());
    assert_eq!(run(chunk).unwrap_err(), "Malformed bytecode.");
    let mut chunk = Chunk::new();
    chunk.codes.extend([Op::Constant.byte(), 0]);
    assert_eq!(run(chunk).unwrap_err(), "Malformed bytecode.");
    let mut chunk = Chunk::new();
    chunk.emit_constant(Value::number(0)).unwrap();
    chunk.emit_get_global(0);
    assert_eq!(run(chunk).unwrap_err(), "Malformed bytecode.");
    let mut chunk = Chunk::new();
    chunk.codes.extend([Op::Jump.byte(), 1, 0]);
    assert_eq!(run(chunk).unwrap_err(), "Malformed bytecode.");
    let mut chunk = Chunk::new();
    chunk.codes.extend([Op::Loop.byte(), 4, 0]);
    assert_eq!(run(chunk).unwrap_err(), "Malformed bytecode.");
    let mut chunk = Chunk::new();
    chunk.emit_get_upvalue(0);
    assert_eq!(run(chunk).unwrap_err(), "Malformed bytecode.");
    let mut chunk = Chunk::new();
    chunk.emit_call(1);
    assert_eq!(run(chunk).unwrap_err(), "Malformed bytecode.");
    let mut chunk = Chunk::new();
    chunk.emit_op(Op::Nil);
    chunk.emit_op(Op::Add);
    assert_eq!(run(chunk).unwrap_err(), "Operands must be two numbers or two strings.");
    let mut chunk = Chunk::new();
    let mut inner = Function::new_function("inner");
    inner.upvalue_count = 1;
    chunk.emit_closure(inner, &vec![lox_vm::scopes::Capture { is_local: true, index: 5 }]).unwrap();
    assert_eq!(run(chunk).unwrap_err(), "Malformed bytecode.");
    let mut chunk = Chunk::new();
    chunk.emit_op(Op::Return);
    let mut function = Function::new_script();
    function.chunk = chunk;
    let mut vm = VM::new();
    vm.stack.push(Value::nil());
    vm.frames.push(CallFrame::new(Closure::new(function), 0));
    assert_eq!(vm.step(0).unwrap_err(), "Malformed bytecode.");
    assert_eq!(vm.stack.len(), 1);
}

#[test]
fn a_function_value_is_called_without_captures() {
    let mut callee = Function::new_function("callee");
    callee.chunk.emit_constant(Value::string("called")).unwrap();
    callee.chunk.emit_op(Op::Print);
    callee.chunk.emit_op(Op::Nil);
    callee.chunk.emit_op(Op::Return);
    let mut script = Function::new_script();
    script.chunk.emit_constant(Value::function(callee)).unwrap();
    script.chunk.emit_call(0);
    script.chunk.emit_op(Op::Pop);
    script.chunk.emit_op(Op::Nil);
    script.chunk.emit_op(Op::Return);
    let mut vm = VM::from_closure(Closure::new(script));
    vm.run(None, &arithmetic, FUEL).unwrap();
    assert!(vm.is_halted());
    assert_eq!(vm.output.len(), 1);
    assert_eq!(vm.output[0].clone().as_string(), Some("called".to_string()));
}

#[test]
fn calls_check_arity_and_depth() {
    let mut function = Function::new_function("f");
    function.arity = 2;
    let mut vm = VM::new();
    vm.stack.push(Value::nil());
    vm.stack.push(Value::nil());
    vm.stack.push(Value::nil());
    assert_eq!(
        Closure::new(function.clone()).call(&mut vm, 1).unwrap_err(),
        "Expected 2 arguments but got 1."
    );
    assert!(vm.frames.is_empty());
    function.clone().call(&mut vm, 2).unwrap();
    assert_eq!(vm.frames.len(), 1);
    assert_eq!(vm.frames[0].start(), 0);
    assert_eq!(vm.frames[0].index, 0);
    vm.stack.push(Value::nil());
    Closure::new(function.clone()).call(&mut vm, 2).unwrap();
    assert_eq!(vm.frames[1].start(), 1);
    while vm.frames.len() < 255 {
        Closure::new(function.clone()).call(&mut vm, 2).unwrap();
    }
    assert_eq!(Closure::new(function).call(&mut vm, 2).unwrap_err(), "stack overflow.");
    assert_eq!(vm.frames.len(), 255);
}

#[test]
fn frames_read_their_code() {
    let mut function = Function::new_script();
    function.chunk.emit_constant(Value::string("k")).unwrap();
    function.chunk.codes.extend([0x34, 0x12, 1, 2]);
    let mut frame = CallFrame::new(Closure::new(function), 1);
    assert_eq!(frame.start(), 1);
    assert_eq!(frame.byte(1), Some(0));
    assert_eq!(frame.byte(6), None);
    assert_eq!(frame.read_byte(), Some(0));
    assert_eq!(frame.read_constant().unwrap().as_string(), Some("k".to_string()));
    assert_eq!(frame.index, 2);
    assert_eq!(frame.read_short(), Some(0x1234));
    assert_eq!(frame.index, 4);
    let mut stack = vec![Value::nil(), Value::nil(), Value::number(5), Value::nil()];
    assert_eq!(frame.get_local(&stack).unwrap().as_number(), Some(5));
    assert_eq!(frame.index, 5);
    assert!(frame.set_local(&mut stack, Value::bool(true)));
    assert_eq!(stack[3].clone().as_bool(), Some(true));
    assert_eq!(frame.index, 6);
    assert_eq!(frame.read_byte(), None);
    assert_eq!(frame.read_short(), None);
    assert!(frame.read_constant().is_none());
    assert!(frame.get_local(&stack).is_none());
    assert!(!frame.set_local(&mut stack, Value::nil()));
    assert_eq!(frame.index, 6);
    frame.step_back(5);
    assert_eq!(frame.index, 1);
    assert!(frame.read_constant().is_some());
    frame.step_ahead(2);
    assert_eq!(frame.index, 4);
    assert!(frame.get_local(&stack[..2].to_vec()).is_none());
    assert_eq!(frame.index, 4);
    frame.step_back(1);
    assert_eq!(frame.read_short(), Some(0x0112));
    frame.step_back(1);
    assert!(frame.read_constant().is_none());
    assert_eq!(frame.index, 4);
}

#[test]
fn number_text_without_a_pattern_is_an_error() {
    let none = |_: &str| -> Option<u64> { None };
    assert_eq!(compile("1;", &none).unwrap_err(), "ParseFloatError");
    assert!(compile("\"1\";", &none).is_ok());
    let only_one = |text: &str| if text == "1" { Some(77) } else { None };
    let function = compile("1; 1;", &only_one).unwrap();
    assert_eq!(function.chunk.constants[1].clone().as_number(), Some(77));
    assert_eq!(compile("1; 2;", &only_one).unwrap_err(), "ParseFloatError");
}

#[test]
fn the_observer_keeps_functions_in_the_order_of_completion() {
    let names: Vec<String> = functions("fun a() { fun b() {} fun c() {} } fun d() {}")
        .iter()
        .map(|function| function.debug())
        .collect();
    assert_eq!(names, vec!["<fun b>", "<fun c>", "<fun a>", "<fun d>", "<script>"]);
    let mut inspector = Inspector::new();
    inspector.catch_bytecode(Function::new_function("f"));
    inspector.catch_stack(vec![Value::number(1.0f64.to_bits()), Value::string("s"), Value::nil()]);
    inspector.catch_stack(Vec::new());
    assert_eq!(inspector.debug_bytecode().debug(&render), "== <fun f> ==\n");
    assert_eq!(
        inspector.debug_stack().debug(&render),
        "== VM Stack Snapshot ==\n[1, \"s\", nil]\n[]\n"
    );
    assert_eq!(Inspector::new().debug_stack().debug(&render), "== VM Stack Snapshot ==\n");
    assert_eq!(Inspector::new().debug_bytecode().debug(&render), "");
}

#[test]
fn captured_variables_in_disassembly() {
    let source = "fun outer() { var x = 1; var y = 2; fun middle() { fun inner() { return x + y; } } }";
    let functions = functions(source);
    assert_eq!(
        functions[1].chunk.debug_bytecodes("== <fun middle> ==", &render),
        "== <fun middle> ==\n\
         0000 Closure             0 <fun inner>\n\
         0002 |                     upvalue 0\n\
         0004 |                     upvalue 1\n\
         0006 Nil\n\
         0007 Return\n"
    );
    assert_eq!(
        functions[2].chunk.debug_bytecodes("== <fun outer> ==", &render),
        "== <fun outer> ==\n\
         0000 Constant            0 '1'\n\
         0002 Constant            1 '2'\n\
         0004 Closure             2 <fun middle>\n\
         0006 |                     local 1\n\
         0008 |                     local 2\n\
         0010 Nil\n\
         0011 Return\n"
    );
    assert_eq!(
        functions[0].chunk.debug_bytecodes("== <fun inner> ==", &render),
        "== <fun inner> ==\n\
         0000 GetUpvalue          0\n\
         0002 GetUpvalue          1\n\
         0004 Add\n\
         0005 Return\n\
         0006 Nil\n\
         0007 Return\n"
    );
    assert_eq!(functions[0].upvalue_count, 2);
    assert_eq!(functions[1].upvalue_count, 2);
    assert_eq!(functions[2].upvalue_count, 0);
}
