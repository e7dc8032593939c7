use bakhtscript::assemble::{decode, encode};
use bakhtscript::bin::{Instruction, IKONST, ILOAD, ISTORE};
use bakhtscript::compiler::Compiler;
use bakhtscript::error::Error;
use bakhtscript::grammar::AssignCallState;
use bakhtscript::scanner::Scanner;
use bakhtscript::script::BakhtScript;
use bakhtscript::text::{Token, TokenKind};
use bakhtscript::value::{Function, Value};
use bakhtscript::vm::BVM;

fn bytes_of(target: &[Instruction]) -> Vec<u8> {
    let mut bytes = Vec::new();
    for i in target {
        let code = encode(*i);
        bytes.extend_from_slice(&code.bytes[..code.len as usize]);
    }
    bytes
}

/// Compiles `src` as the statements of a function whose one parameter is
/// `b`, into a machine with an empty constant pool, and compares the code.
fn check(src: &str, target: &[Instruction]) {
    let text: Vec<char> = format!("(b) {}", src).chars().collect();
    let scanner = Scanner::new(text);
    let mut compiler = Compiler::new(scanner, BVM::default());
    compiler.new_scope();
    assert_eq!(compiler.paramlist().unwrap(), 1);
    while compiler.peek().unwrap().kind != TokenKind::EOF {
        compiler.stmt().unwrap();
    }
    let vm = compiler.vm();
    assert!(bytes_of(target) == *vm.bin());
}

fn compiled(src: &str) -> BVM {
    let scanner = Scanner::new(src.chars().collect());
    let mut compiler = Compiler::new(scanner, BVM::default());
    compiler.compile().unwrap();
    compiler.vm()
}

fn load_error(src: &str) -> Error {
    let mut bs = BakhtScript::default();
    let e = bs.load(src).unwrap_err();
    assert_eq!(bs.sp(), 0);
    e
}

#[test]
fn empty() {
    check("", &[]);
}

#[test]
fn number() {
    check("let a = 3", &[Instruction::Konst(0)]);
}

#[test]
fn variable() {
    check("let a = b", &[Instruction::Load(0)]);
}

#[test]
fn operator() {
    check(
        "let a = b + 1",
        &[
            Instruction::Load(0),
            Instruction::Konst(0),
            Instruction::Add,
        ],
    );
}

#[test]
fn multi_operator() {
    check(
        "let a = b + 1 * 5",
        &[
            Instruction::Load(0),
            Instruction::Konst(0),
            Instruction::Konst(1),
            Instruction::Mult,
            Instruction::Add,
        ],
    );
}

#[test]
fn parentheses() {
    check(
        "let a = (b + 1)",
        &[
            Instruction::Load(0),
            Instruction::Konst(0),
            Instruction::Add,
        ],
    );
}

#[test]
fn left_associative_and_precedence() {
    check(
        "let a = b - 1 - 2",
        &[
            Instruction::Load(0),
            Instruction::Konst(0),
            Instruction::Sub,
            Instruction::Konst(1),
            Instruction::Sub,
        ],
    );
    check(
        "let a = b * 2 + 3 < 4",
        &[
            Instruction::Load(0),
            Instruction::Konst(0),
            Instruction::Mult,
            Instruction::Konst(1),
            Instruction::Add,
            Instruction::Konst(2),
            Instruction::Lt,
        ],
    );
    check(
        "let a = b >= 1 != false",
        &[
            Instruction::Load(0),
            Instruction::Konst(0),
            Instruction::Ge,
            Instruction::False,
            Instruction::Ne,
        ],
    );
}

#[test]
fn unary_minus_multiplies_by_minus_one() {
    check(
        "let a = -b",
        &[Instruction::Load(0), Instruction::Konst(0), Instruction::Mult],
    );
    check("let a = +b", &[Instruction::Load(0)]);
    let text: Vec<char> = "(b) let a = -b".chars().collect();
    let mut compiler = Compiler::new(Scanner::new(text), BVM::default());
    compiler.new_scope();
    compiler.paramlist().unwrap();
    compiler.stmt().unwrap();
    let vm = compiler.vm();
    assert_eq!(vm.constants()[0], Value::Number((-1.0f32).to_bits()));
}

#[test]
fn array_literal_index_and_call() {
    check(
        "let a = [b, 1, nil]",
        &[
            Instruction::Load(0),
            Instruction::Konst(0),
            Instruction::Nil,
            Instruction::Anew(3),
        ],
    );
    check("let a = []", &[Instruction::Anew(0)]);
    check(
        "let a = b[1]",
        &[Instruction::Load(0), Instruction::Konst(0), Instruction::Get],
    );
    check(
        "let a = b(1, true)",
        &[
            Instruction::Load(0),
            Instruction::Konst(0),
            Instruction::True,
            Instruction::Call(2),
        ],
    );
}

#[test]
fn let_without_value_is_nil() {
    check("let a", &[Instruction::Nil]);
    check(
        "let a = 1, c, d = a",
        &[
            Instruction::Konst(0),
            Instruction::Nil,
            Instruction::Load(1),
        ],
    );
}

#[test]
fn assignment_and_call_statements() {
    check("b = 1", &[Instruction::Konst(0), Instruction::Store(0)]);
    check(
        "b[0] = 1",
        &[
            Instruction::Load(0),
            Instruction::Konst(0),
            Instruction::Konst(1),
            Instruction::SetAt,
        ],
    );
    check(
        "b[0][1] = 2",
        &[
            Instruction::Load(0),
            Instruction::Konst(0),
            Instruction::Get,
            Instruction::Konst(1),
            Instruction::Konst(2),
            Instruction::SetAt,
        ],
    );
    check(
        "b(1)",
        &[
            Instruction::Load(0),
            Instruction::Konst(0),
            Instruction::Call(1),
            Instruction::Pop(1),
        ],
    );
    check(
        "b()[0] = nil",
        &[
            Instruction::Load(0),
            Instruction::Call(0),
            Instruction::Konst(0),
            Instruction::Nil,
            Instruction::SetAt,
        ],
    );
}

#[test]
fn a_block_of_k_declarations_ends_with_pop_k() {
    check(
        "{ let x = 1, y = 2 }",
        &[
            Instruction::Konst(0),
            Instruction::Konst(1),
            Instruction::Pop(2),
        ],
    );
    check("{ b = nil }", &[Instruction::Nil, Instruction::Store(0)]);
    check(
        "{ let x { let y = x } }",
        &[
            Instruction::Nil,
            Instruction::Load(1),
            Instruction::Pop(1),
            Instruction::Pop(1),
        ],
    );
}

#[test]
fn slots_are_freed_when_a_block_ends() {
    check(
        "{ let x = 1 } let y = 2 y = 3",
        &[
            Instruction::Konst(0),
            Instruction::Pop(1),
            Instruction::Konst(1),
            Instruction::Konst(2),
            Instruction::Store(1),
        ],
    );
}

#[test]
fn if_branches_over_its_block() {
    check(
        "if b { b = 1 }",
        &[
            Instruction::Load(0),
            Instruction::Cjmp(4),
            Instruction::Konst(0),
            Instruction::Store(0),
        ],
    );
}

#[test]
fn if_else_branches_over_both_blocks() {
    check(
        "if b { b = 1 } else { b = nil }",
        &[
            Instruction::Load(0),
            Instruction::Cjmp(7),
            Instruction::Konst(0),
            Instruction::Store(0),
            Instruction::Jmp(3),
            Instruction::Nil,
            Instruction::Store(0),
        ],
    );
}

#[test]
fn while_branches_back_to_its_condition() {
    check(
        "while b { b = nil }",
        &[
            Instruction::Load(0),
            Instruction::Cjmp(6),
            Instruction::Nil,
            Instruction::Store(0),
            Instruction::Jmp(65525),
        ],
    );
    check(
        "while b { let c = b while c { c = nil } b = c }",
        &[
            Instruction::Load(0),
            Instruction::Cjmp(22),
            Instruction::Load(0),
            Instruction::Load(1),
            Instruction::Cjmp(6),
            Instruction::Nil,
            Instruction::Store(1),
            Instruction::Jmp(65525),
            Instruction::Load(1),
            Instruction::Store(0),
            Instruction::Pop(1),
            Instruction::Jmp(65509),
        ],
    );
}

#[test]
fn return_passes_over_the_rest_of_its_block() {
    check(
        "{ return b b = 1 } b = 2",
        &[
            Instruction::Load(0),
            Instruction::Ret,
            Instruction::Konst(0),
            Instruction::Store(0),
        ],
    );
}

#[test]
fn a_function_ends_with_nil_ret() {
    let vm = compiled("fn main(a, b) { let c = a }");
    assert_eq!(
        *vm.bin(),
        bytes_of(&[
            Instruction::Load(0),
            Instruction::Pop(1),
            Instruction::Nil,
            Instruction::Ret,
            Instruction::Pop(2),
        ])
    );
    assert_eq!(vm.constants().len(), 5);
    assert_eq!(
        vm.constants()[4],
        Value::Function(Function::Bakht {
            param_count: 2,
            address: 0
        })
    );
    assert_eq!(vm.entry(), 4);
}

#[test]
fn natives_are_the_first_constants() {
    let vm = compiled("fn main() { }");
    let expected = [(0, 1), (1, 1), (2, 2), (3, 1)];
    for (func, param_count) in expected {
        assert_eq!(
            vm.constants()[func],
            Value::Function(Function::Native { param_count, func })
        );
    }
}

#[test]
fn globals_are_read_as_constants() {
    let vm = compiled("fn f() { } fn main() { f() print(1) }");
    let f = vm.constants()[4];
    let main = vm.constants()[5];
    assert_eq!(
        f,
        Value::Function(Function::Bakht {
            param_count: 0,
            address: 0
        })
    );
    assert_eq!(
        main,
        Value::Function(Function::Bakht {
            param_count: 0,
            address: 2
        })
    );
    assert_eq!(
        vm.bin()[2..],
        bytes_of(&[
            Instruction::Konst(4),
            Instruction::Call(0),
            Instruction::Pop(1),
            Instruction::Konst(0),
            Instruction::Konst(6),
            Instruction::Call(1),
            Instruction::Pop(1),
            Instruction::Nil,
            Instruction::Ret,
        ])
    );
}

#[test]
fn literal_loses_its_quotes() {
    let mut bs = BakhtScript::default();
    bs.load("fn main() { return 'hi there' }").unwrap();
    let vm = compiled("fn main() { return 'hi there' }");
    match vm.constants()[5] {
        Value::String(h) => {
            assert_eq!(vm.string(h).iter().collect::<String>(), "hi there")
        }
        _ => panic!(),
    }
}

#[test]
fn unknown_identifier() {
    match load_error("fn main() { x = 1 }") {
        Error::UnknownIdentifier(t) => {
            assert_eq!((t.from, t.len, t.kind), (12, 1, TokenKind::Identifier))
        }
        e => panic!("{:?}", e),
    }
}

#[test]
fn multiple_definition() {
    match load_error("fn main() { let x = 1; let x = 2 }") {
        Error::Scanner => {}
        e => panic!("{:?}", e),
    }
    match load_error("fn main() { let x = 1 let x = 2 }") {
        Error::MultipleDefinition(name) => assert_eq!(name, "x"),
        e => panic!("{:?}", e),
    }
    match load_error("fn main(a, a) { }") {
        Error::MultipleDefinition(name) => assert_eq!(name, "a"),
        e => panic!("{:?}", e),
    }
    match load_error("fn print() { } fn main() { }") {
        Error::MultipleDefinition(name) => assert_eq!(name, "print"),
        e => panic!("{:?}", e),
    }
    match load_error("fn f() { } fn f() { } fn main() { }") {
        Error::MultipleDefinition(name) => assert_eq!(name, "f"),
        e => panic!("{:?}", e),
    }
}

#[test]
fn shadowing_in_an_inner_scope_is_allowed() {
    let vm = compiled("fn main() { let x = 1 { let x = 2 } }");
    assert_eq!(
        *vm.bin(),
        bytes_of(&[
            Instruction::Konst(5),
            Instruction::Konst(6),
            Instruction::Pop(1),
            Instruction::Pop(1),
            Instruction::Nil,
            Instruction::Ret,
        ])
    );
}

#[test]
fn immutable_global() {
    match load_error("fn main() { print = 1 }") {
        Error::Immutable(t) => assert_eq!((t.from, t.len), (12, 5)),
        e => panic!("{:?}", e),
    }
}

#[test]
fn no_main_function() {
    assert!(matches!(load_error(""), Error::NoMainFunction));
    assert!(matches!(load_error("fn f() { }"), Error::NoMainFunction));
}

#[test]
fn scanner_error() {
    assert!(matches!(load_error("fn main() { let a = 'open }"), Error::Scanner));
    assert!(matches!(load_error("fn main() { let a = 1 ? 2 }"), Error::Scanner));
}

#[test]
fn unexpected_token() {
    match load_error("let a = 1") {
        Error::UnexpectedToken(t) => assert_eq!(t.kind, TokenKind::Let),
        e => panic!("{:?}", e),
    }
    match load_error("fn main() { 1 = 2 }") {
        Error::UnexpectedToken(t) => assert_eq!(t.kind, TokenKind::Number),
        e => panic!("{:?}", e),
    }
    match load_error("fn main() { (1) = 2 }") {
        Error::UnexpectedToken(t) => assert_eq!(t.kind, TokenKind::Single('=')),
        e => panic!("{:?}", e),
    }
    match load_error("fn main() { let a a }") {
        Error::UnexpectedToken(t) => assert_eq!(t.kind, TokenKind::Single('}')),
        e => panic!("{:?}", e),
    }
    match load_error("fn main() { let a = 1 . 2 }") {
        Error::UnexpectedToken(t) => assert_eq!(t.kind, TokenKind::Single('.')),
        e => panic!("{:?}", e),
    }
    match load_error("fn main() { else { } }") {
        Error::UnexpectedToken(t) => assert_eq!(t.kind, TokenKind::Else),
        e => panic!("{:?}", e),
    }
    match load_error("fn main() { while true } }") {
        Error::UnexpectedToken(t) => assert_eq!(t.kind, TokenKind::Single('}')),
        e => panic!("{:?}", e),
    }
    match load_error("fn main() {") {
        Error::UnexpectedToken(t) => assert_eq!(t.kind, TokenKind::EOF),
        e => panic!("{:?}", e),
    }
}

#[test]
fn branch_too_far() {
    let mut src = String::from("fn main() { let a = 1 if a { ");
    for _ in 0..22000 {
        src.push_str("a = 1 ");
    }
    src.push_str("} }");
    assert!(matches!(load_error(&src), Error::BranchTooFar));
}

#[test]
fn a_loop_too_far_up() {
    let mut src = String::from("fn main() { let a = 1 while a { ");
    for _ in 0..22000 {
        src.push_str("a = 1 ");
    }
    src.push_str("} }");
    assert!(matches!(load_error(&src), Error::BranchTooFar));
    let mut src = String::from("fn main() { let a = 1 ");
    for _ in 0..22000 {
        src.push_str("a = 1 ");
    }
    src.push_str("if a { } }");
    assert!(matches!(load_error(&src), Error::BranchTooFar));
}

#[test]
fn load_puts_the_entry_function_on_the_stack() {
    let mut bs = BakhtScript::default();
    bs.load("fn main() { } fn other() { }").unwrap();
    assert_eq!(bs.sp(), 1);
    assert!(bs.error().is_ok());
}

fn compiler(src: &str) -> Compiler {
    Compiler::new(Scanner::new(src.chars().collect()), BVM::default())
}

#[test]
fn binding_powers() {
    let c = compiler("+ - * / % < > <= >= == != ( [ = !");
    let single = |at: usize, ch: char| Token {
        from: at,
        len: 1,
        kind: TokenKind::Single(ch),
    };
    let double = |at: usize| Token {
        from: at,
        len: 2,
        kind: TokenKind::Double,
    };
    assert_eq!(c.pwr_infix(single(0, '+')), Some((51, 52)));
    assert_eq!(c.pwr_infix(single(2, '-')), Some((51, 52)));
    assert_eq!(c.pwr_infix(single(4, '*')), Some((53, 54)));
    assert_eq!(c.pwr_infix(single(6, '/')), Some((53, 54)));
    assert_eq!(c.pwr_infix(single(8, '%')), Some((53, 54)));
    assert_eq!(c.pwr_infix(single(10, '<')), Some((49, 50)));
    assert_eq!(c.pwr_infix(single(12, '>')), Some((49, 50)));
    for at in [14, 17, 20, 23] {
        assert_eq!(c.pwr_infix(double(at)), Some((49, 50)));
    }
    assert_eq!(c.pwr_infix(single(26, '(')), None);
    assert_eq!(c.pwr_infix(single(30, '=')), None);
    assert_eq!(c.pwr_infix(single(32, '!')), None);
    assert_eq!(c.pwr_prefix(single(0, '+')), Some(56));
    assert_eq!(c.pwr_prefix(single(2, '-')), Some(56));
    assert_eq!(c.pwr_prefix(single(4, '*')), None);
    assert_eq!(c.pwr_postfix(single(26, '(')), Some(59));
    assert_eq!(c.pwr_postfix(single(28, '[')), Some(59));
    assert_eq!(c.pwr_postfix(single(0, '+')), None);
    assert_eq!(c.compile_operator(single(0, '+')), Instruction::Add);
    assert_eq!(c.compile_operator(single(2, '-')), Instruction::Sub);
    assert_eq!(c.compile_operator(single(4, '*')), Instruction::Mult);
    assert_eq!(c.compile_operator(single(6, '/')), Instruction::Div);
    assert_eq!(c.compile_operator(single(8, '%')), Instruction::Mod);
    assert_eq!(c.compile_operator(single(10, '<')), Instruction::Lt);
    assert_eq!(c.compile_operator(single(12, '>')), Instruction::Gt);
    assert_eq!(c.compile_operator(double(14)), Instruction::Le);
    assert_eq!(c.compile_operator(double(17)), Instruction::Ge);
    assert_eq!(c.compile_operator(double(20)), Instruction::Eq);
    assert_eq!(c.compile_operator(double(23)), Instruction::Ne);
}

#[test]
fn endable_states() {
    let t = Token {
        from: 0,
        len: 1,
        kind: TokenKind::Identifier,
    };
    assert!(AssignCallState::Identifier(t).endable());
    assert!(AssignCallState::Index.endable());
    assert!(!AssignCallState::Call.endable());
    assert!(!AssignCallState::InitialRvalue.endable());
}

#[test]
fn peek_does_not_take_the_token() {
    let mut c = compiler("a b");
    let a = c.peek().unwrap();
    assert_eq!((a.from, a.len, a.kind), (0, 1, TokenKind::Identifier));
    assert_eq!(c.peek().unwrap(), a);
    assert_eq!(c.pop().unwrap(), a);
    let b = c.pop().unwrap();
    assert_eq!((b.from, b.len), (2, 1));
    assert_eq!(c.pop().unwrap().kind, TokenKind::EOF);
    assert_eq!(c.peek().unwrap().kind, TokenKind::EOF);
    assert_eq!(c.pop().unwrap().kind, TokenKind::EOF);
}

#[test]
fn expect_refuses_another_kind() {
    let mut c = compiler("a (");
    assert!(c.expect(TokenKind::Identifier).is_ok());
    match c.expect(TokenKind::Single(')')) {
        Err(Error::UnexpectedToken(t)) => assert_eq!(t.kind, TokenKind::Single('(')),
        r => panic!("{:?}", r),
    }
    let mut c = compiler("?");
    assert!(matches!(c.expect(TokenKind::Identifier), Err(Error::Scanner)));
}

#[test]
fn names_resolve_from_the_innermost_scope_outward() {
    let mut vm = BVM::default();
    vm.rodata_native(0, 0);
    let mut c = Compiler::new(Scanner::new("(a, f) { let a let b a b f g h }".chars().collect()), vm);
    c.register_const("f".to_string(), 0).unwrap();
    c.register_const("g".to_string(), 0).unwrap();
    match c.register_const("f".to_string(), 0) {
        Err(Error::MultipleDefinition(name)) => assert_eq!(name, "f"),
        r => panic!("{:?}", r),
    }
    c.new_scope();
    assert_eq!(c.paramlist().unwrap(), 2);
    c.expect(TokenKind::Single('{')).unwrap();
    c.new_scope();
    c.stmt().unwrap();
    c.stmt().unwrap();
    let a = c.pop().unwrap();
    let b = c.pop().unwrap();
    let f = c.pop().unwrap();
    let g = c.pop().unwrap();
    let h = c.pop().unwrap();
    assert_eq!(c.get_id(a).unwrap(), (2, false));
    assert_eq!(c.get_id(b).unwrap(), (3, false));
    assert_eq!(c.get_id(f).unwrap(), (1, false));
    assert_eq!(c.get_id(g).unwrap(), (0, true));
    assert!(matches!(c.get_id(h), Err(Error::UnknownIdentifier(t)) if t == h));
    assert_eq!(c.compile_load_id(a).unwrap(), Instruction::Load(2));
    assert_eq!(c.compile_load_id(g).unwrap(), Instruction::Konst(0));
    assert_eq!(c.compile_store_id(b).unwrap(), Instruction::Store(3));
    assert!(matches!(c.compile_store_id(g), Err(Error::Immutable(t)) if t == g));
    assert!(matches!(c.compile_store_id(h), Err(Error::UnknownIdentifier(_))));
    c.close_scope();
    assert_eq!(c.get_id(a).unwrap(), (0, false));
    assert!(matches!(c.get_id(b), Err(Error::UnknownIdentifier(_))));
    c.close_scope();
    assert!(matches!(c.get_id(a), Err(Error::UnknownIdentifier(_))));
    assert_eq!(c.get_id(f).unwrap(), (0, true));
    let vm = c.vm();
    assert_eq!(
        *vm.bin(),
        bytes_of(&[
            Instruction::Nil,
            Instruction::Nil,
            Instruction::Pop(2),
            Instruction::Pop(2),
        ])
    );
}

#[test]
fn atoms() {
    let mut c = compiler("12 'ab' true false nil x +");
    let mut got = Vec::new();
    for _ in 0..5 {
        let t = c.pop().unwrap();
        got.push(c.compile_atom(t).unwrap());
    }
    assert_eq!(
        got,
        vec![
            Instruction::Konst(0),
            Instruction::Konst(1),
            Instruction::True,
            Instruction::False,
            Instruction::Nil,
        ]
    );
    let x = c.pop().unwrap();
    assert!(matches!(c.compile_atom(x), Err(Error::UnknownIdentifier(_))));
    let plus = c.pop().unwrap();
    assert!(matches!(c.compile_atom(plus), Err(Error::UnexpectedToken(_))));
    let vm = c.vm();
    assert_eq!(
        *vm.constants(),
        vec![Value::Number(12.0f32.to_bits()), Value::String(0)]
    );
    assert_eq!(vm.string(0), vec!['a', 'b']);
}

#[test]
fn expression_lists() {
    let mut c = compiler(") 1) 1, 2, 3] 1 2)");
    assert_eq!(c.explist(')').unwrap(), 0);
    assert_eq!(c.explist(')').unwrap(), 1);
    assert_eq!(c.explist(']').unwrap(), 3);
    match c.explist(')') {
        Err(Error::UnexpectedToken(t)) => assert_eq!(t.kind, TokenKind::Number),
        r => panic!("{:?}", r),
    }
}

#[test]
fn flush_reads_what_stands_before() {
    let mut c = compiler("(a) a");
    c.new_scope();
    c.paramlist().unwrap();
    let a = c.pop().unwrap();
    c.flush_lvalue(AssignCallState::Identifier(a)).unwrap();
    c.flush_lvalue(AssignCallState::Index).unwrap();
    c.flush_lvalue(AssignCallState::Call).unwrap();
    c.flush_lvalue(AssignCallState::InitialRvalue).unwrap();
    assert_eq!(
        *c.vm().bin(),
        bytes_of(&[Instruction::Load(0), Instruction::Get])
    );
}

#[test]
fn the_rules_one_by_one() {
    let mut c = compiler("x = 1, y }");
    c.new_scope();
    c.var_decl().unwrap();
    c.pop().unwrap();
    c.var_decl().unwrap();
    c.block(TokenKind::Single('}')).unwrap();
    assert_eq!(
        *c.vm().bin(),
        bytes_of(&[Instruction::Konst(0), Instruction::Nil])
    );
    let mut c = compiler("1 + 2 (3) x(1)");
    c.expr().unwrap();
    c.expr_p(53).unwrap();
    assert!(matches!(c.assign_call(), Err(Error::UnknownIdentifier(_))));
    let mut c = compiler("if 1 { } f(a) { return a } g() { }");
    c.new_scope();
    c.peek().unwrap();
    c.if_stmt().unwrap();
    c.close_scope();
    assert_eq!(c.function_body().unwrap(), false);
    c.source().unwrap_err();
    let mut c = compiler("main() { }");
    c.libs().unwrap();
    assert_eq!(c.function_body().unwrap(), true);
    c.source().unwrap_err();
    let vm = c.vm();
    assert_eq!(vm.constants().len(), 5);
    assert_eq!(vm.entry(), 4);
}

#[test]
fn every_konst_names_a_constant_and_every_slot_a_local() {
    let src = "fn f(a, b) { let c = [a, 'x', 2] { let d = c[0] d = -b } c[1] = f(1, 2) return c }
               fn main() { let x = 1 if x < 2 { let y = f(x, 3) print(y) } else { x = len('abc') } }";
    let vm = compiled(src);
    let mut ip = 0;
    let (mut konsts, mut slots) = (0, 0);
    while ip < vm.bin().len() {
        let d = decode(vm.bin(), ip).unwrap();
        if d.opcode == IKONST {
            assert!((d.operand as usize) < vm.constants().len());
            konsts += 1;
        }
        if d.opcode == ILOAD || d.opcode == ISTORE {
            assert!(d.operand < 4);
            slots += 1;
        }
        ip = d.next;
    }
    assert_eq!(ip, vm.bin().len());
    assert_eq!((konsts, slots), (15, 10));
}

#[test]
fn a_declaration_needs_no_token_taken() {
    let mut c = compiler("x y x");
    c.new_scope();
    let x = Token { from: 0, len: 1, kind: TokenKind::Identifier };
    let y = Token { from: 2, len: 1, kind: TokenKind::Identifier };
    c.register_decl(x).unwrap();
    c.register_decl(y).unwrap();
    match c.register_decl(Token { from: 4, len: 1, kind: TokenKind::Identifier }) {
        Err(Error::MultipleDefinition(name)) => assert_eq!(name, "x"),
        r => panic!("{:?}", r),
    }
    c.new_scope();
    c.register_decl(x).unwrap();
    assert_eq!(c.get_id(x).unwrap(), (2, false));
    assert_eq!(c.get_id(y).unwrap(), (1, false));
    c.close_scope();
    assert_eq!(c.get_id(x).unwrap(), (0, false));
}

#[test]
fn if_and_while_take_their_keyword_themselves() {
    let mut c = compiler("(b) if b { } while b { }");
    c.new_scope();
    c.paramlist().unwrap();
    c.if_stmt().unwrap();
    c.while_stmt().unwrap();
    assert_eq!(
        *c.vm().bin(),
        bytes_of(&[
            Instruction::Load(0),
            Instruction::Cjmp(0),
            Instruction::Load(0),
            Instruction::Cjmp(3),
            Instruction::Jmp(65528),
        ])
    );
    let mut c = compiler("(b) while b { }");
    c.new_scope();
    c.paramlist().unwrap();
    match c.if_stmt() {
        Err(Error::UnexpectedToken(t)) => assert_eq!(t.kind, TokenKind::While),
        r => panic!("{:?}", r),
    }
    let mut c = compiler("(b) b");
    c.new_scope();
    c.paramlist().unwrap();
    match c.while_stmt() {
        Err(Error::UnexpectedToken(t)) => assert_eq!(t.kind, TokenKind::Identifier),
        r => panic!("{:?}", r),
    }
}

#[test]
fn a_block_gives_back_the_slots_it_took() {
    check(
        "let x = 1 { let y = 2, z = 3 { let w } } let v = x",
        &[
            Instruction::Konst(0),
            Instruction::Konst(1),
            Instruction::Konst(2),
            Instruction::Nil,
            Instruction::Pop(1),
            Instruction::Pop(2),
            Instruction::Load(1),
        ],
    );
    check(
        "if b { let y = 1 } else { let y = 2, z } let v = b",
        &[
            Instruction::Load(0),
            Instruction::Cjmp(7),
            Instruction::Konst(0),
            Instruction::Pop(1),
            Instruction::Jmp(5),
            Instruction::Konst(1),
            Instruction::Nil,
            Instruction::Pop(2),
            Instruction::Load(0),
        ],
    );
}
