use minilang::{Expr, Literal, Program, Stmt, SymbolTable, SymbolTableEntry, Type};

fn slot(name: &str, offset: usize) -> SymbolTableEntry {
    SymbolTableEntry::new(name.to_string(), Type::Integer, offset)
}

#[test]
fn integer_takes_eight_bytes() {
    assert_eq!(Type::Integer.size(), 8);
}

#[test]
fn entry_holds_what_it_was_made_with() {
    let e = SymbolTableEntry::new("count".to_string(), Type::Integer, 24);
    assert_eq!(e.name, "count");
    assert_eq!(e.ty, Type::Integer);
    assert_eq!(e.offset, 24);
}

#[test]
fn new_table_is_empty() {
    let table = SymbolTable::new(16, Some(0));
    assert_eq!(table.entries, vec![]);
    assert_eq!(table.offset, 16);
    assert_eq!(table.parent, Some(0));
    assert_eq!(table.size(), 0);
    assert_eq!(table.get("x"), None);
}

#[test]
fn table_offsets_start_at_base_and_grow_by_size() {
    let mut table = SymbolTable::new(40, None);
    table.add("a".to_string(), Type::Integer);
    table.add("b".to_string(), Type::Integer);
    table.add("c".to_string(), Type::Integer);
    assert_eq!(table.entries, vec![slot("a", 40), slot("b", 48), slot("c", 56)]);
    assert_eq!(table.size(), 24);
    assert_eq!(table.get("b"), Some(&slot("b", 48)));
    assert_eq!(table.get("d"), None);
    assert_eq!(table.get(""), None);
}

#[test]
fn new_program_has_one_empty_scope() {
    let program = Program::new();
    assert_eq!(program.stmts, vec![]);
    assert_eq!(program.symbol_tables, vec![SymbolTable::new(0, None)]);
    assert_eq!(program.curr_table, 0);
    assert_eq!(program.find_entry("x"), None);
    assert_eq!(program.find_in_scope("x"), None);
}

#[test]
fn push_stmt_appends() {
    let mut program = Program::new();
    program.push_stmt(Stmt::Exit(Expr::Literal(Literal::Integer(1))));
    program.push_stmt(Stmt::Exit(Expr::Literal(Literal::Integer(2))));
    assert_eq!(
        program.stmts,
        vec![
            Stmt::Exit(Expr::Literal(Literal::Integer(1))),
            Stmt::Exit(Expr::Literal(Literal::Integer(2))),
        ]
    );
    assert_eq!(program.symbol_tables, vec![SymbolTable::new(0, None)]);
}

#[test]
fn push_entry_declares_in_the_current_scope() {
    let mut program = Program::new();
    program.push_entry("x".to_string(), Type::Integer);
    program.push_entry("y".to_string(), Type::Integer);
    assert_eq!(program.symbol_tables[0].entries, vec![slot("x", 0), slot("y", 8)]);
    assert_eq!(program.find_entry("y"), Some(&slot("y", 8)));
    assert_eq!(program.find_in_scope("x"), Some(&slot("x", 0)));
    assert_eq!(program.find_entry("z"), None);
    assert_eq!(program.stmts, vec![]);
}

fn nested() -> Program {
    let mut outer = SymbolTable::new(0, None);
    outer.add("x".to_string(), Type::Integer);
    outer.add("y".to_string(), Type::Integer);
    let mut middle = SymbolTable::new(16, Some(0));
    middle.add("z".to_string(), Type::Integer);
    let inner = SymbolTable::new(24, Some(1));
    let other = SymbolTable::new(16, Some(0));
    Program { stmts: vec![], symbol_tables: vec![outer, middle, inner, other], curr_table: 2 }
}

#[test]
fn names_resolve_through_the_scope_chain() {
    let program = nested();
    assert_eq!(program.find_entry("z"), Some(&slot("z", 16)));
    assert_eq!(program.find_entry("x"), Some(&slot("x", 0)));
    assert_eq!(program.find_entry("w"), None);
    assert_eq!(program.find_in_scope("z"), None);
    assert_eq!(program.find_in_scope("x"), None);
}

#[test]
fn inner_declaration_shadows_the_outer_one() {
    let mut program = nested();
    program.push_entry("x".to_string(), Type::Integer);
    assert_eq!(program.symbol_tables[2].entries, vec![slot("x", 24)]);
    assert_eq!(program.symbol_tables[0].entries, vec![slot("x", 0), slot("y", 8)]);
    assert_eq!(program.find_entry("x"), Some(&slot("x", 24)));
    assert_eq!(program.find_in_scope("x"), Some(&slot("x", 24)));
    assert_eq!(program.find_entry("y"), Some(&slot("y", 8)));
}

#[test]
fn sibling_scope_is_not_searched() {
    let mut program = nested();
    program.curr_table = 3;
    assert_eq!(program.find_entry("z"), None);
    assert_eq!(program.find_entry("y"), Some(&slot("y", 8)));
}

#[test]
fn link_that_does_not_lead_to_an_earlier_table_ends_the_search() {
    let mut first = SymbolTable::new(0, Some(1));
    first.add("a".to_string(), Type::Integer);
    let mut second = SymbolTable::new(8, Some(0));
    second.add("b".to_string(), Type::Integer);
    let mut program = Program { stmts: vec![], symbol_tables: vec![first, second], curr_table: 0 };
    assert_eq!(program.find_entry("a"), Some(&slot("a", 0)));
    assert_eq!(program.find_entry("b"), None);
    program.curr_table = 1;
    assert_eq!(program.find_entry("a"), Some(&slot("a", 0)));
    program.curr_table = 7;
    assert_eq!(program.find_entry("a"), None);
    assert_eq!(program.find_in_scope("a"), None);
}

#[test]
fn names_of_a_built_program_are_checked() {
    let mut program = Program::new();
    program.push_stmt(Stmt::Exit(Expr::Literal(Literal::Integer(1))));
    assert!(program.resolves_names());
    program.push_stmt(Stmt::Exit(Expr::Identifier("x".to_string())));
    assert!(!program.resolves_names());
    assert!(!program.resolves_expr(&Expr::Identifier("x".to_string())));
    program.push_entry("x".to_string(), Type::Integer);
    assert!(program.resolves_names());
    assert!(program.resolves_expr(&Expr::Identifier("x".to_string())));
    let assign = Stmt::VarAssign("y".to_string(), Expr::Identifier("x".to_string()));
    assert!(!program.resolves_stmt(&assign));
    let declare = Stmt::VarDecl("x".to_string(), Expr::Identifier("y".to_string()));
    assert!(!program.resolves_stmt(&declare));
    program.push_entry("y".to_string(), Type::Integer);
    assert!(program.resolves_stmt(&assign));
    assert!(program.resolves_stmt(&declare));
}

#[test]
fn tables_built_by_add_are_well_formed() {
    let mut table = SymbolTable::new(8, None);
    assert!(table.is_well_formed());
    table.add("a".to_string(), Type::Integer);
    table.add("b".to_string(), Type::Integer);
    assert!(table.is_well_formed());
    assert!(nested().is_well_formed());
    assert!(Program::new().is_well_formed());
}

#[test]
fn gap_or_overlap_of_offsets_is_not_well_formed() {
    let table = |offsets: [usize; 3]| SymbolTable {
        entries: vec![slot("a", offsets[0]), slot("b", offsets[1]), slot("c", offsets[2])],
        offset: 16,
        parent: None,
    };
    assert!(table([16, 24, 32]).is_well_formed());
    assert!(!table([0, 8, 16]).is_well_formed());
    assert!(!table([16, 24, 40]).is_well_formed());
    assert!(!table([16, 16, 24]).is_well_formed());
    assert!(!table([16, 32, 24]).is_well_formed());
}

#[test]
fn offsets_beyond_the_machine_range_are_not_well_formed() {
    let last = usize::MAX - 7;
    let fits = SymbolTable { entries: vec![slot("a", last)], offset: last, parent: None };
    assert!(fits.is_well_formed());
    let wraps = SymbolTable {
        entries: vec![slot("a", last), slot("b", 0)],
        offset: last,
        parent: None,
    };
    assert!(!wraps.is_well_formed());
}

#[test]
fn name_held_twice_is_not_well_formed() {
    let table = SymbolTable {
        entries: vec![slot("a", 0), slot("b", 8), slot("a", 16)],
        offset: 0,
        parent: None,
    };
    assert!(!table.is_well_formed());
}

#[test]
fn program_needs_its_scope_and_earlier_parents() {
    let mut program = nested();
    program.curr_table = 4;
    assert!(!program.is_well_formed());
    program.curr_table = 3;
    assert!(program.is_well_formed());
    program.symbol_tables[1].parent = Some(1);
    assert!(!program.is_well_formed());
    program.symbol_tables[1].parent = Some(2);
    assert!(!program.is_well_formed());
    program.symbol_tables[1].parent = None;
    assert!(program.is_well_formed());
    program.symbol_tables[0].parent = Some(0);
    assert!(!program.is_well_formed());
    let empty = Program { stmts: vec![], symbol_tables: vec![], curr_table: 0 };
    assert!(!empty.is_well_formed());
}

#[test]
fn cloned_program_is_equal() {
    let mut program = nested();
    program.push_stmt(Stmt::VarAssign("z".to_string(), Expr::Identifier("x".to_string())));
    program.push_stmt(Stmt::Exit(Expr::Literal(Literal::Integer(3))));
    let copy = program.clone();
    assert_eq!(copy, program);
    assert_eq!(copy.symbol_tables[1].clone(), program.symbol_tables[1]);
    assert_eq!(copy.stmts[0].clone(), program.stmts[0]);
}

#[test]
fn next_offset_lies_behind_the_last_entry() {
    let mut table = SymbolTable::new(24, None);
    assert_eq!(table.next_offset(), Some(24));
    table.add("a".to_string(), Type::Integer);
    assert_eq!(table.next_offset(), Some(32));
    table.add("b".to_string(), Type::Integer);
    assert_eq!(table.next_offset(), Some(40));
    assert_eq!(table.entries[1].offset, table.entries[0].offset + Type::Integer.size());

    let mut program = nested();
    assert_eq!(program.next_offset(), Some(24));
    program.push_entry("w".to_string(), Type::Integer);
    assert_eq!(program.next_offset(), Some(32));
    program.curr_table = 0;
    assert_eq!(program.next_offset(), Some(16));
}

#[test]
fn next_offset_beyond_the_machine_range_is_none() {
    let last = usize::MAX - 7;
    let mut table = SymbolTable::new(last, None);
    assert_eq!(table.next_offset(), Some(last));
    table.add("a".to_string(), Type::Integer);
    assert_eq!(table.entries, vec![slot("a", last)]);
    assert_eq!(table.next_offset(), None);
    let program = Program { stmts: vec![], symbol_tables: vec![table], curr_table: 0 };
    assert!(program.is_well_formed());
    assert_eq!(program.next_offset(), None);
}
