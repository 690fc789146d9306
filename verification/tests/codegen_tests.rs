use minilang::{Expr, Generator, Lexer, Literal, Parser, Program, Stmt, SymbolTable, Type};

const ENTRY: &str = "global _start\nsection .text\n_start:\n  mov rbp, rsp\n";
const EPILOGUE: &str = "  mov rdi, 0\n_exit:\n  mov rsp, rbp\n  mov rax, 60\n  syscall\n";

fn compile(source: &str) -> String {
    let tokens = Lexer::new(source).lex().unwrap();
    let program = Parser::new(tokens).parse().unwrap();
    Generator::new(program).generate()
}

fn body(text: &str) -> &str {
    let text = text.strip_prefix(ENTRY).unwrap();
    text.strip_suffix(EPILOGUE).unwrap()
}

#[test]
fn empty_program_is_entry_and_epilogue() {
    assert_eq!(compile(""), format!("{}{}", ENTRY, EPILOGUE));
    assert_eq!(Generator::new(Program::new()).generate(), format!("{}{}", ENTRY, EPILOGUE));
}

#[test]
fn exit_with_literal_passes_it_as_status() {
    assert_eq!(
        compile("exit(42)"),
        "global _start\n\
         section .text\n\
         _start:\n\
         \x20 mov rbp, rsp\n\
         \x20 mov rax, 42\n\
         \x20 push rax\n\
         \x20 pop rdi\n\
         \x20 jmp _exit\n\
         \x20 mov rdi, 0\n\
         _exit:\n\
         \x20 mov rsp, rbp\n\
         \x20 mov rax, 60\n\
         \x20 syscall\n"
    );
}

#[test]
fn exit_status_is_printed_in_full() {
    assert_eq!(
        body(&compile("exit(300)")),
        "  mov rax, 300\n  push rax\n  pop rdi\n  jmp _exit\n"
    );
    assert_eq!(
        body(&compile("exit(0)")),
        "  mov rax, 0\n  push rax\n  pop rdi\n  jmp _exit\n"
    );
    assert_eq!(
        body(&compile("exit(9223372036854775807)")),
        "  mov rax, 9223372036854775807\n  push rax\n  pop rdi\n  jmp _exit\n"
    );
}

#[test]
fn assignment_writes_the_declared_slot() {
    assert_eq!(
        body(&compile("x := 5\nx = 9\nexit(x)")),
        "  mov rax, 5\n  push rax\n  pop rax\n  mov [rbp - 0], rax\n\
         \x20 mov rax, 9\n  push rax\n  pop rax\n  mov [rbp - 0], rax\n\
         \x20 mov rax, [rbp - 0]\n  push rax\n  pop rdi\n  jmp _exit\n"
    );
}

#[test]
fn each_variable_has_its_own_slot() {
    assert_eq!(
        body(&compile("a := 1\nb := a\nc := b\na = c\nexit(b)")),
        "  sub rsp, 16\n\
         \x20 mov rax, 1\n  push rax\n  pop rax\n  mov [rbp - 0], rax\n\
         \x20 mov rax, [rbp - 0]\n  push rax\n  pop rax\n  mov [rbp - 8], rax\n\
         \x20 mov rax, [rbp - 8]\n  push rax\n  pop rax\n  mov [rbp - 16], rax\n\
         \x20 mov rax, [rbp - 16]\n  push rax\n  pop rax\n  mov [rbp - 0], rax\n\
         \x20 mov rax, [rbp - 8]\n  push rax\n  pop rdi\n  jmp _exit\n"
    );
}

#[test]
fn every_statement_leaves_the_stack_balanced() {
    let text = compile("a := 1\nb := a\nexit(a)\na = b\nexit(7)");
    let mut depth = 0;
    for line in body(&text).lines() {
        if line.starts_with("  push ") {
            depth += 1;
            assert_eq!(depth, 1);
        } else if line.starts_with("  pop ") {
            depth -= 1;
            assert_eq!(depth, 0);
        }
    }
    assert_eq!(depth, 0);
}

#[test]
fn negative_literal_of_a_built_program() {
    let mut program = Program::new();
    program.push_stmt(Stmt::Exit(Expr::Literal(Literal::Integer(-1))));
    program.push_stmt(Stmt::Exit(Expr::Literal(Literal::Integer(i64::MIN))));
    assert_eq!(
        body(&Generator::new(program).generate()),
        "  mov rax, -1\n  push rax\n  pop rdi\n  jmp _exit\n\
         \x20 mov rax, -9223372036854775808\n  push rax\n  pop rdi\n  jmp _exit\n"
    );
}

#[test]
fn built_program_uses_the_offsets_of_its_table() {
    let mut program = Program::new();
    program.push_entry("first".to_string(), Type::Integer);
    program.push_entry("second".to_string(), Type::Integer);
    program.push_stmt(Stmt::VarAssign(
        "second".to_string(),
        Expr::Identifier("first".to_string()),
    ));
    assert_eq!(
        body(&Generator::new(program).generate()),
        "  sub rsp, 8\n  mov rax, [rbp - 0]\n  push rax\n  pop rax\n  mov [rbp - 8], rax\n"
    );
}

#[test]
fn generating_twice_gives_the_same_text() {
    let tokens = Lexer::new("x := 1\nexit(x)").lex().unwrap();
    let program = Parser::new(tokens).parse().unwrap();
    let mut generator = Generator::new(program);
    let first = generator.generate();
    let second = generator.generate();
    assert_eq!(first, second);
    assert!(first.starts_with(ENTRY) && first.ends_with(EPILOGUE));
}

#[test]
fn frame_of_no_or_one_variable_needs_no_room() {
    assert!(!compile("exit(1)").contains("sub rsp"));
    assert!(!compile("x := 1\nx = 2\nexit(x)").contains("sub rsp"));
}

#[test]
fn frame_reaches_to_the_last_variable() {
    let text = compile("a := 1\nb := 2\na = 7\nexit(b)");
    assert_eq!(
        text,
        "global _start\nsection .text\n_start:\n  mov rbp, rsp\n  sub rsp, 8\n\
         \x20 mov rax, 1\n  push rax\n  pop rax\n  mov [rbp - 0], rax\n\
         \x20 mov rax, 2\n  push rax\n  pop rax\n  mov [rbp - 8], rax\n\
         \x20 mov rax, 7\n  push rax\n  pop rax\n  mov [rbp - 0], rax\n\
         \x20 mov rax, [rbp - 8]\n  push rax\n  pop rdi\n  jmp _exit\n\
         \x20 mov rdi, 0\n_exit:\n  mov rsp, rbp\n  mov rax, 60\n  syscall\n"
    );
    let five = compile("a := 1\nb := 2\nc := 3\nd := 4\ne := 5");
    assert!(five.starts_with(&format!("{}  sub rsp, 32\n  mov rax, 1\n", ENTRY)));
}

#[test]
fn frame_covers_the_slots_of_every_scope() {
    let mut outer = SymbolTable::new(0, None);
    outer.add("x".to_string(), Type::Integer);
    outer.add("y".to_string(), Type::Integer);
    let mut inner = SymbolTable::new(16, Some(0));
    inner.add("z".to_string(), Type::Integer);
    let other = SymbolTable::new(16, Some(0));
    let program = Program {
        stmts: vec![Stmt::Exit(Expr::Identifier("y".to_string()))],
        symbol_tables: vec![outer, inner, other],
        curr_table: 2,
    };
    assert_eq!(
        body(&Generator::new(program).generate()),
        "  sub rsp, 16\n  mov rax, [rbp - 8]\n  push rax\n  pop rdi\n  jmp _exit\n"
    );
}
