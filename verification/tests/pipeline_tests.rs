use minilang::{compile, parse_source, CompileError, Error, Expr, Literal, Stmt};

#[test]
fn source_to_program() {
    let program = parse_source("x := 5\nx = 9\nexit(x)").unwrap();
    assert_eq!(
        program.stmts,
        vec![
            Stmt::VarDecl("x".to_string(), Expr::Literal(Literal::Integer(5))),
            Stmt::VarAssign("x".to_string(), Expr::Literal(Literal::Integer(9))),
            Stmt::Exit(Expr::Identifier("x".to_string())),
        ]
    );
    assert!(program.resolves_names());
}

#[test]
fn lexical_error_comes_from_the_lexer() {
    match parse_source("exit(12abc)") {
        Err(CompileError::Lexical(e)) => {
            assert_eq!(e.pos(), 7);
            assert_eq!(e.msg(), "Expected whitespace or symbol after number");
        }
        other => panic!("unexpected result: {:?}", other),
    }
}

#[test]
fn lexical_error_comes_before_any_syntactic_one() {
    match parse_source("y = 1\nx : 2") {
        Err(CompileError::Lexical(e)) => {
            assert_eq!(e.pos(), 8);
            assert_eq!(e.msg(), "Expected '=' after ':'");
        }
        other => panic!("unexpected result: {:?}", other),
    }
}

#[test]
fn syntactic_error_comes_from_the_parser() {
    match parse_source("x := 1\nx := 2") {
        Err(CompileError::Syntactic(e)) => {
            assert_eq!(e.pos(), 7);
            assert_eq!(e.msg(), "Variable 'x' redeclared in this scope");
        }
        other => panic!("unexpected result: {:?}", other),
    }
}

#[test]
fn assigned_value_reaches_exit() {
    assert_eq!(
        compile("x := 5\nx = 9\nexit(x)").unwrap(),
        "global _start\nsection .text\n_start:\n  mov rbp, rsp\n\
         \x20 mov rax, 5\n  push rax\n  pop rax\n  mov [rbp - 0], rax\n\
         \x20 mov rax, 9\n  push rax\n  pop rax\n  mov [rbp - 0], rax\n\
         \x20 mov rax, [rbp - 0]\n  push rax\n  pop rdi\n  jmp _exit\n\
         \x20 mov rdi, 0\n_exit:\n  mov rsp, rbp\n  mov rax, 60\n  syscall\n"
    );
}

#[test]
fn nothing_is_generated_from_a_text_with_an_error() {
    assert!(matches!(compile("exit(x)"), Err(CompileError::Syntactic(_))));
    assert!(matches!(compile("exit(1) $"), Err(CompileError::Lexical(_))));
}

#[test]
fn literal_is_printed_as_it_was_read() {
    let text = compile("exit(0042)").unwrap();
    assert!(text.contains("  mov rax, 42\n  push rax\n  pop rdi\n  jmp _exit\n"));
}
