use minilang::{
    Error, Expr, Keyword, Lexer, Literal, Parser, ParserError, Program, Stmt, Symbol, SymbolTable,
    SymbolTableEntry, Token, Type,
};

fn parse(source: &str) -> Result<Program, ParserError> {
    let tokens = Lexer::new(source).lex().unwrap();
    Parser::new(tokens).parse()
}

fn fails(source: &str, pos: usize, msg: &str) {
    let err = parse(source).unwrap_err();
    assert_eq!((err.pos(), err.msg().as_str()), (pos, msg), "source: {:?}", source);
}

fn entry(name: &str, offset: usize) -> SymbolTableEntry {
    SymbolTableEntry { name: name.to_string(), ty: Type::Integer, offset }
}

fn global(entries: Vec<SymbolTableEntry>) -> Vec<SymbolTable> {
    vec![SymbolTable { entries, offset: 0, parent: None }]
}

fn lit(value: i64) -> Expr {
    Expr::Literal(Literal::Integer(value))
}

fn var(name: &str) -> Expr {
    Expr::Identifier(name.to_string())
}

#[test]
fn empty_source_is_the_empty_program() {
    let program = parse("").unwrap();
    assert_eq!(program, Program::new());
    assert_eq!(program.stmts, vec![]);
    assert_eq!(program.symbol_tables, global(vec![]));
    assert_eq!(program.curr_table, 0);
}

#[test]
fn exit_with_literal() {
    let program = parse("exit(42)").unwrap();
    assert_eq!(program.stmts, vec![Stmt::Exit(lit(42))]);
    assert_eq!(program.symbol_tables, global(vec![]));
}

#[test]
fn declaration_assignment_and_use() {
    let program = parse("x := 5\nx = 9\nexit(x)\n").unwrap();
    assert_eq!(
        program.stmts,
        vec![
            Stmt::VarDecl("x".to_string(), lit(5)),
            Stmt::VarAssign("x".to_string(), lit(9)),
            Stmt::Exit(var("x")),
        ]
    );
    assert_eq!(program.symbol_tables, global(vec![entry("x", 0)]));
    assert_eq!(program.curr_table, 0);
}

#[test]
fn offsets_grow_by_eight_in_declaration_order() {
    let program = parse("a := 1\nb := 2\nc := a\nb = c\nd := 4").unwrap();
    assert_eq!(
        program.symbol_tables,
        global(vec![entry("a", 0), entry("b", 8), entry("c", 16), entry("d", 24)])
    );
    assert_eq!(program.stmts.len(), 5);
    assert_eq!(program.stmts[2], Stmt::VarDecl("c".to_string(), var("a")));
    assert_eq!(program.stmts[3], Stmt::VarAssign("b".to_string(), var("c")));
}

#[test]
fn declaring_a_name_twice_is_rejected_at_the_second_declaration() {
    fails("x := 1\nx := 2", 7, "Variable 'x' redeclared in this scope");
    fails("abc := 1\nd := 2\n  abc := d\n", 18, "Variable 'abc' redeclared in this scope");
}

#[test]
fn using_an_undeclared_name_is_rejected_at_the_identifier() {
    fails("exit(y)", 5, "Variable 'y' not declared");
    fails("x := 1\nz := y", 12, "Variable 'y' not declared");
    fails("x := x", 5, "Variable 'x' not declared");
}

#[test]
fn assigning_an_undeclared_name_is_rejected_at_the_identifier() {
    fails("y = 1", 0, "Variable 'y' not declared");
    fails("x := 1\n  y = x", 9, "Variable 'y' not declared");
}

#[test]
fn expression_is_checked_before_the_assigned_name() {
    fails("x = y", 4, "Variable 'y' not declared");
    fails("x := 1\nx := y", 12, "Variable 'y' not declared");
}

#[test]
fn statement_must_begin_with_keyword_or_identifier() {
    fails("5", 0, "Unexpected Literal, expected statement");
    fails("(", 0, "Unexpected Symbol, expected statement");
    fails("exit(1)\n= 2", 8, "Unexpected Symbol, expected statement");
}

#[test]
fn exit_needs_its_parentheses_and_one_expression() {
    fails("exit 5", 5, "Unexpected Literal, expected symbol '('");
    fails("exit", 4, "Unexpected EOF, expected symbol '('");
    fails("exit(5", 6, "Unexpected EOF, expected symbol ')'");
    fails("exit(5 6)", 7, "Unexpected Literal, expected symbol ')'");
    fails("exit()", 5, "Unexpected Symbol, expected expression");
    fails("exit(exit)", 5, "Unexpected Keyword, expected expression");
    fails("exit((1))", 5, "Unexpected Symbol, expected expression");
}

#[test]
fn identifier_needs_declaration_or_assignment_symbol() {
    fails("x 5", 2, "Unexpected Literal, expected symbol");
    fails("x", 1, "Unexpected EOF, expected symbol");
    fails("x y", 2, "Unexpected Identifier, expected symbol");
    fails("x (1)", 2, "Unexpected Symbol");
    fails("x )", 2, "Unexpected Symbol");
    fails("x :=", 4, "Unexpected EOF, expected expression");
    fails("x = =", 4, "Unexpected Symbol, expected expression");
}

#[test]
fn one_statement_per_line() {
    fails("exit(1) exit(2)", 8, "Unexpected Keyword, expected newline or EOF after statement");
    fails("x := 1 2", 7, "Unexpected Literal, expected newline or EOF after statement");
    fails("x := 1 y := 2", 7, "Unexpected Identifier, expected newline or EOF after statement");
    fails("x := 1 )", 7, "Unexpected Symbol, expected newline or EOF after statement");
}

#[test]
fn blank_lines_separate_statements() {
    let program = parse("\n\n  x := 1\n\n\n\texit(x)\n\n").unwrap();
    assert_eq!(
        program.stmts,
        vec![Stmt::VarDecl("x".to_string(), lit(1)), Stmt::Exit(var("x"))]
    );
}

#[test]
fn statement_may_end_at_end_of_input() {
    assert_eq!(parse("exit(7)").unwrap().stmts, vec![Stmt::Exit(lit(7))]);
    assert_eq!(parse("exit(7)\n").unwrap().stmts, vec![Stmt::Exit(lit(7))]);
}

#[test]
fn line_end_may_stand_between_identifier_and_its_symbol() {
    let program = parse("x\n\n:= 1\nx\n= 2").unwrap();
    assert_eq!(
        program.stmts,
        vec![Stmt::VarDecl("x".to_string(), lit(1)), Stmt::VarAssign("x".to_string(), lit(2))]
    );
}

#[test]
fn line_end_inside_a_statement_is_rejected() {
    fails("exit\n(5)", 4, "Unexpected Newline, expected symbol '('");
    fails("exit(\n5)", 5, "Unexpected Newline, expected expression");
    fails("exit(5\n)", 6, "Unexpected Newline, expected symbol ')'");
    fails("x :=\n5", 4, "Unexpected Newline, expected expression");
    fails("x := 1\nx =\n5", 10, "Unexpected Newline, expected expression");
}

#[test]
fn first_parse_error_wins() {
    fails("y = 1\nexit(", 0, "Variable 'y' not declared");
    fails("exit(1\ny = 1", 6, "Unexpected Newline, expected symbol ')'");
}

#[test]
fn end_of_tokens_reads_as_end_of_input() {
    let tokens = vec![
        Token::Keyword { val: Keyword::Exit, start: 0, end: 4 },
        Token::Symbol { val: Symbol::LeftParen, start: 4, end: 5 },
        Token::Literal { val: Literal::Integer(3), start: 5, end: 6 },
        Token::Symbol { val: Symbol::RightParen, start: 6, end: 7 },
    ];
    let program = Parser::new(tokens).parse().unwrap();
    assert_eq!(program.stmts, vec![Stmt::Exit(lit(3))]);

    assert_eq!(Parser::new(vec![]).parse().unwrap(), Program::new());

    let err = Parser::new(vec![Token::Identifier { val: "x".to_string(), start: 2, end: 3 }])
        .parse()
        .unwrap_err();
    assert_eq!(err.pos(), 3);
    assert_eq!(err.msg(), "Unexpected EOF, expected symbol");

    let only_line_ends =
        vec![Token::Newline { start: 0, end: 1 }, Token::Newline { start: 1, end: 2 }];
    assert_eq!(Parser::new(only_line_ends).parse().unwrap(), Program::new());
}

#[test]
fn parsing_stops_at_the_first_end_of_input() {
    let tokens = vec![
        Token::Keyword { val: Keyword::Exit, start: 0, end: 4 },
        Token::Symbol { val: Symbol::LeftParen, start: 4, end: 5 },
        Token::Literal { val: Literal::Integer(3), start: 5, end: 6 },
        Token::Symbol { val: Symbol::RightParen, start: 6, end: 7 },
        Token::EOF { start: 7, end: 7 },
        Token::Literal { val: Literal::Integer(9), start: 8, end: 9 },
        Token::EOF { start: 9, end: 9 },
    ];
    let program = Parser::new(tokens).parse().unwrap();
    assert_eq!(program.stmts, vec![Stmt::Exit(lit(3))]);
}

#[test]
fn parsing_twice_gives_the_same_result() {
    let tokens = Lexer::new("a := 1\nb := a\nexit(b)").lex().unwrap();
    let mut parser = Parser::new(tokens);
    let first = parser.parse().unwrap();
    let second = parser.parse().unwrap();
    assert_eq!(first, second);
    assert_eq!(first.symbol_tables, global(vec![entry("a", 0), entry("b", 8)]));

    let tokens = Lexer::new("a := 1\na := 2").lex().unwrap();
    let mut parser = Parser::new(tokens);
    let first = parser.parse().unwrap_err();
    let second = parser.parse().unwrap_err();
    assert_eq!((first.pos(), first.msg()), (second.pos(), second.msg()));
    assert_eq!(first.pos(), 7);
}

#[test]
fn parser_error_report_line() {
    let err = parse("exit(y)").unwrap_err();
    assert_eq!(err.to_string(), "Parser error at position 5: Variable 'y' not declared");
}

#[test]
fn parsed_program_is_well_formed_and_resolves() {
    let program = parse("a := 1\nb := a\nexit(b)\na = b").unwrap();
    assert!(program.is_well_formed());
    assert!(program.resolves_names());
    assert_eq!(program.find_entry("b"), Some(&entry("b", 8)));
}
