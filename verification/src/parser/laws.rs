//! What holds of every parse: the program that comes out is well scoped
//! and its names resolve; a second declaration and an undeclared name are
//! rejected where they stand.

use vstd::prelude::*;
use crate::ast::{entries_size, lookup_entry, EntryView, ExprView, ProgramView, StmtView, Type};
use crate::ast::laws::{lemma_declare, lemma_entries_size_take, lemma_lookup_entry};
use crate::error::Diagnostic;
use crate::parser::grammar::{
    end_of_stmt_at, frame_full_msg, not_declared_msg, parse_expr_at, parse_from, parse_stmt_at,
    parse_tokens, redeclared_msg, skip_newlines, token_at, type_of_expr,
};
use crate::token::{Symbol, TokenKind, TokenView};

verus! {

/// One step of parsing keeps a program well formed and its names resolved:
/// the program of the step is well formed, every statement that the program
/// had still resolves in it, and so does the statement that was read.
pub proof fn lemma_step_resolves(tokens: Seq<TokenView>, pos: int, program: ProgramView)
    requires
        program.wf(),
        program.names_resolve(),
    ensures
        (parse_stmt_at(tokens, pos, program) matches Ok(step) ==> {
            &&& step.program.wf()
            &&& step.program.stmts == program.stmts
            &&& step.program.names_resolve()
            &&& step.stmt matches Some(stmt) ==> step.program.stmt_resolves(stmt)
        }),
{
    let start = skip_newlines(tokens, pos);
    let first = token_at(tokens, start);
    if let Ok(step) = parse_stmt_at(tokens, pos, program) {
        if let TokenKind::Identifier(name) = first.kind {
            let op = skip_newlines(tokens, start + 1);
            if token_at(tokens, op).kind == TokenKind::Symbol(Symbol::ColonEquals) {
                let expr = parse_expr_at(tokens, op + 1, program)->Ok_0.0;
                let ty = type_of_expr(program, expr);
                lemma_declare(program, name, ty);
                let after = program.declare(name, ty);
                assert(step.program == after);
                assert forall|i: int| 0 <= i < after.stmts.len() implies after.stmt_resolves(
                    #[trigger] after.stmts[i],
                ) by {
                    assert(program.stmt_resolves(program.stmts[i]));
                    lemma_stmt_resolves_after_declare(program, name, ty, program.stmts[i]);
                }
                lemma_expr_resolves_after_declare(program, name, ty, expr);
            }
        }
    }
}

/// An expression whose names resolve keeps that after a declaration.
proof fn lemma_expr_resolves_after_declare(
    program: ProgramView,
    name: Seq<char>,
    ty: Type,
    expr: ExprView,
)
    requires
        program.wf(),
        !program.declares(name),
        program.expr_resolves(expr),
    ensures
        program.declare(name, ty).expr_resolves(expr),
{
    lemma_declare(program, name, ty);
    if let ExprView::Identifier(used) = expr {
        if used != name {
            assert(program.declare(name, ty).resolve(used) == program.resolve(used));
        }
    }
}

/// A statement whose names resolve keeps that after a declaration.
proof fn lemma_stmt_resolves_after_declare(
    program: ProgramView,
    name: Seq<char>,
    ty: Type,
    stmt: StmtView,
)
    requires
        program.wf(),
        !program.declares(name),
        program.stmt_resolves(stmt),
    ensures
        program.declare(name, ty).stmt_resolves(stmt),
{
    lemma_declare(program, name, ty);
    match stmt {
        StmtView::Exit(expr) => {
            lemma_expr_resolves_after_declare(program, name, ty, expr);
        },
        StmtView::VarDecl(target, expr) => {
            lemma_expr_resolves_after_declare(program, name, ty, expr);
            if target != name {
                assert(program.declare(name, ty).resolve(target) == program.resolve(target));
            }
        },
        StmtView::VarAssign(target, expr) => {
            lemma_expr_resolves_after_declare(program, name, ty, expr);
            if target != name {
                assert(program.declare(name, ty).resolve(target) == program.resolve(target));
            }
        },
    }
}

/// Parsing on from a well-formed program whose names resolve ends in such a
/// program.
pub proof fn lemma_parse_from_resolves(tokens: Seq<TokenView>, pos: int, program: ProgramView)
    requires
        program.wf(),
        program.names_resolve(),
    ensures
        parse_from(tokens, pos, program) matches Ok(parsed) ==> parsed.wf()
            && parsed.names_resolve(),
    decreases
            (if pos < tokens.len() {
                tokens.len() - pos
            } else {
                0
            }),
{
    lemma_step_resolves(tokens, pos, program);
    if let Ok(step) = parse_stmt_at(tokens, pos, program) {
        if let Some(stmt) = step.stmt {
            let next = step.program.push_stmt(stmt);
            assert forall|i: int| 0 <= i < next.stmts.len() implies next.stmt_resolves(
                #[trigger] next.stmts[i],
            ) by {
                if i < step.program.stmts.len() {
                    assert(step.program.stmt_resolves(step.program.stmts[i]));
                }
            }
            lemma_parse_from_resolves(tokens, step.next, next);
        }
    }
}

/// A program that parsing returns is well formed, and every name in its
/// statements resolves: the generator can print it.
pub proof fn lemma_parsed_program_resolves(tokens: Seq<TokenView>)
    ensures
        parse_tokens(tokens) matches Ok(program) ==> program.wf() && program.names_resolve(),
{
    lemma_parse_from_resolves(tokens, 0, ProgramView::empty());
}

/// The names that the statements declare, in the order of declaration.
pub open spec fn declared_names(stmts: Seq<StmtView>) -> Seq<Seq<char>>
    decreases stmts.len(),
{
    if stmts.len() == 0 {
        Seq::empty()
    } else {
        let before = declared_names(stmts.drop_last());
        match stmts.last() {
            StmtView::VarDecl(name, _) => before.push(name),
            _ => before,
        }
    }
}

/// The names of the entries, in order.
pub open spec fn entry_names(entries: Seq<EntryView>) -> Seq<Seq<char>> {
    entries.map_values(|e: EntryView| e.name)
}

/// Whether the statement uses the variable `name`: reads it in its
/// expression, or assigns to it.
pub open spec fn stmt_uses(stmt: StmtView, name: Seq<char>) -> bool {
    match stmt {
        StmtView::Exit(expr) => expr == ExprView::Identifier(name),
        StmtView::VarDecl(_, expr) => expr == ExprView::Identifier(name),
        StmtView::VarAssign(target, expr) => target == name || expr == ExprView::Identifier(
            name,
        ),
    }
}

/// Every variable that a statement uses is declared by a statement before
/// it.
pub open spec fn declared_before_use(stmts: Seq<StmtView>) -> bool {
    forall|i: int, name: Seq<char>|
        0 <= i < stmts.len() && #[trigger] stmt_uses(stmts[i], name) ==> declared_names(
            stmts.take(i),
        ).contains(name)
}

/// What parsing builds: a well-formed program of one scope at offset zero,
/// whose symbol table lists exactly the names that the statements declare,
/// in that order, and whose statements use only what was declared before.
pub open spec fn well_scoped(program: ProgramView) -> bool {
    &&& program.wf()
    &&& program.tables.len() == 1
    &&& program.curr == 0
    &&& program.tables[0].offset == 0
    &&& program.tables[0].parent is None
    &&& entry_names(program.tables[0].entries) == declared_names(program.stmts)
    &&& declared_before_use(program.stmts)
}

/// In a program of one scope, a name resolves exactly when the scope's
/// table lists it.
pub proof fn lemma_resolves_iff_listed(program: ProgramView, name: Seq<char>)
    requires
        program.tables.len() == 1,
        program.curr == 0,
        program.tables[0].parent is None,
    ensures
        program.resolve(name) is Some <==> entry_names(program.tables[0].entries).contains(name),
        program.declares(name) <==> entry_names(program.tables[0].entries).contains(name),
{
    let entries = program.tables[0].entries;
    let names = entry_names(entries);
    lemma_lookup_entry(entries, name);
    if lookup_entry(entries, name) is Some {
        let i = choose|i: int| 0 <= i < entries.len() && (#[trigger] entries[i]).name == name;
        assert(names[i] == name);
    } else {
        if names.contains(name) {
            let i = choose|i: int| 0 <= i < names.len() && names[i] == name;
            assert(entries[i].name == name);
        }
    }
}

/// One step of parsing keeps a program well scoped.
proof fn lemma_step_well_scoped(tokens: Seq<TokenView>, pos: int, program: ProgramView)
    requires
        well_scoped(program),
    ensures
        (parse_stmt_at(tokens, pos, program) matches Ok(step) ==> match step.stmt {
            Some(stmt) => well_scoped(step.program.push_stmt(stmt)),
            None => step.program == program,
        }),
{
    if let Ok(step) = parse_stmt_at(tokens, pos, program) {
        if let Some(stmt) = step.stmt {
            let start = skip_newlines(tokens, pos);
            let first = token_at(tokens, start);
            let after = step.program.push_stmt(stmt);
            let n = program.stmts.len() as int;
            assert(after.stmts.drop_last() =~= program.stmts);
            assert(after.stmts.take(n) =~= program.stmts);
            assert(forall|i: int| 0 <= i < n ==> after.stmts.take(i) =~= program.stmts.take(i));
            // What the new statement uses was declared before it.
            assert forall|name: Seq<char>| #[trigger] stmt_uses(stmt, name) implies declared_names(
                program.stmts,
            ).contains(name) by {
                lemma_resolves_iff_listed(program, name);
            }
            if let TokenKind::Identifier(name) = first.kind {
                let op = skip_newlines(tokens, start + 1);
                if token_at(tokens, op).kind == TokenKind::Symbol(Symbol::ColonEquals) {
                    let expr = parse_expr_at(tokens, op + 1, program)->Ok_0.0;
                    let ty = type_of_expr(program, expr);
                    lemma_declare(program, name, ty);
                    let entry = EntryView { name, ty, offset: program.scope().next_offset() };
                    assert(entry_names(program.tables[0].entries.push(entry)) =~= entry_names(
                        program.tables[0].entries,
                    ).push(name));
                }
            }
            assert forall|i: int, name: Seq<char>|
                0 <= i < after.stmts.len() && #[trigger] stmt_uses(
                    after.stmts[i],
                    name,
                ) implies declared_names(after.stmts.take(i)).contains(name) by {
                if i < n {
                    assert(after.stmts[i] == program.stmts[i]);
                    assert(after.stmts.take(i) =~= program.stmts.take(i));
                    assert(stmt_uses(program.stmts[i], name));
                } else {
                    assert(after.stmts[i] == stmt);
                }
            }
        }
    }
}

/// Parsing on from a well-scoped program ends in a well-scoped program.
proof fn lemma_parse_from_well_scoped(tokens: Seq<TokenView>, pos: int, program: ProgramView)
    requires
        well_scoped(program),
    ensures
        parse_from(tokens, pos, program) matches Ok(parsed) ==> well_scoped(parsed),
    decreases
            (if pos < tokens.len() {
                tokens.len() - pos
            } else {
                0
            }),
{
    lemma_step_well_scoped(tokens, pos, program);
    if let Ok(step) = parse_stmt_at(tokens, pos, program) {
        if let Some(stmt) = step.stmt {
            lemma_parse_from_well_scoped(tokens, step.next, step.program.push_stmt(stmt));
        }
    }
}

/// A program that parsing returns is well scoped: its one symbol table
/// lists the declared names in the order of their declaration, and no
/// statement uses a variable that no earlier statement declared.
pub proof fn lemma_parsed_program_is_well_scoped(tokens: Seq<TokenView>)
    ensures
        parse_tokens(tokens) matches Ok(program) ==> well_scoped(program),
{
    let empty = ProgramView::empty();
    assert(entry_names(empty.tables[0].entries) =~= declared_names(empty.stmts));
    assert(empty.tables[0].entries.take(0) =~= empty.tables[0].entries);
    lemma_parse_from_well_scoped(tokens, 0, empty);
}

/// In a well-scoped program no name is declared twice, and the variable
/// declared `i`-th lies at offset `8 * i`.
pub proof fn lemma_well_scoped_declarations(program: ProgramView)
    requires
        well_scoped(program),
    ensures
        declared_names(program.stmts).no_duplicates(),
        forall|i: int|
            0 <= i < program.tables[0].entries.len() ==> (
            #[trigger] program.tables[0].entries[i]).offset == 8 * i,
{
    let entries = program.tables[0].entries;
    let names = declared_names(program.stmts);
    assert forall|i: int, j: int|
        0 <= i < names.len() && 0 <= j < names.len() && i != j implies names[i] != names[j] by {
        assert(names[i] == entries[i].name);
        assert(names[j] == entries[j].name);
    }
    assert forall|i: int| 0 <= i < entries.len() implies (#[trigger] entries[i]).offset == 8
        * i by {
        lemma_entries_size_integers(entries, i);
    }
}

/// Entries of integers take eight bytes each.
proof fn lemma_entries_size_integers(entries: Seq<EntryView>, i: int)
    requires
        0 <= i <= entries.len(),
    ensures
        entries_size(entries.take(i)) == 8 * i,
    decreases i,
{
    if i > 0 {
        lemma_entries_size_integers(entries, i - 1);
        lemma_entries_size_take(entries, i - 1);
    } else {
        assert(entries.take(0) =~= Seq::<EntryView>::empty());
    }
}

/// Whether the message is one of those that the grammar gives to errors of
/// form and of scope: they begin with "Unexpected" or with "Variable".
pub open spec fn errs_in_form_or_scope(d: Diagnostic) -> bool {
    d.msg.len() > 0 && (d.msg[0] == 'U' || d.msg[0] == 'V')
}

/// One step of parsing that has read no more declarations than tokens finds
/// a slot for every declaration, as long as eight bytes for each token stay
/// in the range of the machine's integers: if the step fails, then on form
/// or scope.
proof fn lemma_step_has_room(tokens: Seq<TokenView>, pos: int, program: ProgramView)
    requires
        well_scoped(program),
        0 <= pos,
        program.tables[0].entries.len() <= pos,
        8 * tokens.len() <= usize::MAX,
    ensures
        (match parse_stmt_at(tokens, pos, program) {
            Ok(step) => step.stmt is Some ==> step.program.tables[0].entries.len() <= step.next,
            Err(d) => errs_in_form_or_scope(d),
        }),
{
    reveal_strlit("Unexpected ");
    reveal_strlit("Variable ");
    let start = skip_newlines(tokens, pos);
    let first = token_at(tokens, start);
    let entries = program.tables[0].entries;
    lemma_entries_size_integers(entries, entries.len() as int);
    assert(entries.take(entries.len() as int) =~= entries);
    if let TokenKind::Identifier(name) = first.kind {
        let op = skip_newlines(tokens, start + 1);
        if token_at(tokens, op).kind == TokenKind::Symbol(Symbol::ColonEquals) {
            if let Ok((expr, next)) = parse_expr_at(tokens, op + 1, program) {
                if !program.declares(name) {
                    let ty = type_of_expr(program, expr);
                    lemma_declare(program, name, ty);
                }
            }
        }
    }
}

/// Parsing finds a slot for every declaration, as long as eight bytes for
/// each token stay in the range of the machine's integers.
proof fn lemma_parse_from_has_room(tokens: Seq<TokenView>, pos: int, program: ProgramView)
    requires
        well_scoped(program),
        0 <= pos,
        program.tables[0].entries.len() <= pos,
        8 * tokens.len() <= usize::MAX,
    ensures
        parse_from(tokens, pos, program) matches Err(d) ==> errs_in_form_or_scope(d),
    decreases
            (if pos < tokens.len() {
                tokens.len() - pos
            } else {
                0
            }),
{
    lemma_step_has_room(tokens, pos, program);
    lemma_step_well_scoped(tokens, pos, program);
    if let Ok(step) = parse_stmt_at(tokens, pos, program) {
        if let Some(stmt) = step.stmt {
            lemma_parse_from_has_room(tokens, step.next, step.program.push_stmt(stmt));
        }
    }
}

/// The symbol table has room for whatever a token sequence declares, as
/// long as eight bytes for each token stay in the range of the machine's
/// integers: parsing then fails only on form or scope, never for want of a
/// slot.
pub proof fn lemma_parsing_has_room(tokens: Seq<TokenView>)
    requires
        8 * tokens.len() <= usize::MAX,
    ensures
        parse_tokens(tokens) matches Err(d) ==> errs_in_form_or_scope(d) && d.msg
            != frame_full_msg(),
{
    reveal_strlit("Too many variables");
    let empty = ProgramView::empty();
    assert(entry_names(empty.tables[0].entries) =~= declared_names(empty.stmts));
    assert(empty.tables[0].entries.take(0) =~= empty.tables[0].entries);
    lemma_parse_from_has_room(tokens, 0, empty);
}

/// Whether `word` stands somewhere in `text`.
pub open spec fn holds_word(text: Seq<char>, word: Seq<char>) -> bool {
    exists|i: int|
        0 <= i && i + word.len() <= text.len() && #[trigger] text.subrange(i, i + word.len())
            == word
}

/// The messages of the two errors of scope name them: the one for a second
/// declaration holds the word "redeclared", the one for a name without a
/// declaration the words "not declared", whatever the name.
pub proof fn lemma_scope_messages_name_the_error(name: Seq<char>)
    ensures
        holds_word(redeclared_msg(name), "redeclared"@),
        holds_word(not_declared_msg(name), "not declared"@),
{
    reveal_strlit("Variable ");
    reveal_strlit("'");
    reveal_strlit(" redeclared in this scope");
    reveal_strlit(" not declared");
    reveal_strlit("redeclared");
    reveal_strlit("not declared");
    let at = name.len() as int + 12;
    let first = redeclared_msg(name);
    assert(first.subrange(at, at + 10) =~= "redeclared"@);
    let second = not_declared_msg(name);
    assert(second.subrange(at, at + 12) =~= "not declared"@);
}

/// Declaring a name twice in one scope is rejected: where parsing comes to
/// a statement `name := expr` while the current scope holds `name` already,
/// it fails with the "redeclared" message at the offset of the statement's
/// identifier.
pub proof fn lemma_redeclaration_rejected(
    tokens: Seq<TokenView>,
    pos: int,
    program: ProgramView,
    name: Seq<char>,
)
    requires
        token_at(tokens, skip_newlines(tokens, pos)).kind == TokenKind::Identifier(name),
        token_at(tokens, skip_newlines(tokens, skip_newlines(tokens, pos) + 1)).kind
            == TokenKind::Symbol(Symbol::ColonEquals),
        parse_expr_at(
            tokens,
            skip_newlines(tokens, skip_newlines(tokens, pos) + 1) + 1,
            program,
        ) is Ok,
        program.declares(name),
    ensures
        parse_from(tokens, pos, program) == Err::<ProgramView, Diagnostic>(
            Diagnostic {
                pos: token_at(tokens, skip_newlines(tokens, pos)).start,
                msg: redeclared_msg(name),
            },
        ),
{
}

/// A name that a declaration statement declared is held by the current
/// scope from then on, whatever is parsed after it.
pub proof fn lemma_declaration_is_kept(tokens: Seq<TokenView>, pos: int, program: ProgramView)
    requires
        program.wf(),
    ensures
        (parse_stmt_at(tokens, pos, program) matches Ok(step) ==> {
            &&& step.program.wf()
            &&& forall|name: Seq<char>| #[trigger]
                program.declares(name) ==> step.program.declares(name)
            &&& step.stmt matches Some(StmtView::VarDecl(name, _)) ==> step.program.declares(
                name,
            ) && !program.declares(name)
        }),
{
    let start = skip_newlines(tokens, pos);
    let first = token_at(tokens, start);
    if let Ok(step) = parse_stmt_at(tokens, pos, program) {
        if let TokenKind::Identifier(name) = first.kind {
            let op = skip_newlines(tokens, start + 1);
            if token_at(tokens, op).kind == TokenKind::Symbol(Symbol::ColonEquals) {
                let expr = parse_expr_at(tokens, op + 1, program)->Ok_0.0;
                let ty = type_of_expr(program, expr);
                lemma_declare(program, name, ty);
                assert forall|other: Seq<char>| #[trigger]
                    program.declares(other) implies step.program.declares(other) by {
                    assert(other != name);
                    assert(program.declare(name, ty).resolve(other) == program.resolve(other));
                }
            }
        }
    }
}

/// Using an undeclared name is rejected: where an expression is expected and
/// an identifier stands that does not resolve, the expression fails with the
/// "not declared" message at the offset of that identifier.
pub proof fn lemma_undeclared_use_rejected(
    tokens: Seq<TokenView>,
    pos: int,
    program: ProgramView,
    name: Seq<char>,
)
    requires
        token_at(tokens, pos).kind == TokenKind::Identifier(name),
        program.resolve(name) is None,
    ensures
        parse_expr_at(tokens, pos, program) == Err::<(ExprView, int), Diagnostic>(
            Diagnostic { pos: token_at(tokens, pos).start, msg: not_declared_msg(name) },
        ),
{
}

/// Assigning to an undeclared name is rejected: where parsing comes to a
/// statement `name = expr` while `name` does not resolve, it fails with the
/// "not declared" message at the offset of the statement's identifier.
pub proof fn lemma_undeclared_assignment_rejected(
    tokens: Seq<TokenView>,
    pos: int,
    program: ProgramView,
    name: Seq<char>,
)
    requires
        token_at(tokens, skip_newlines(tokens, pos)).kind == TokenKind::Identifier(name),
        token_at(tokens, skip_newlines(tokens, skip_newlines(tokens, pos) + 1)).kind
            == TokenKind::Symbol(Symbol::Equals),
        parse_expr_at(
            tokens,
            skip_newlines(tokens, skip_newlines(tokens, pos) + 1) + 1,
            program,
        ) is Ok,
        program.resolve(name) is None,
    ensures
        parse_from(tokens, pos, program) == Err::<ProgramView, Diagnostic>(
            Diagnostic {
                pos: token_at(tokens, skip_newlines(tokens, pos)).start,
                msg: not_declared_msg(name),
            },
        ),
{
}

/// Assigning to a declared name is accepted: where parsing comes to a
/// statement `name = expr` on a line of its own while `name` resolves, the
/// step yields the assignment and leaves the symbol tables as they are.
pub proof fn lemma_assignment_accepted(
    tokens: Seq<TokenView>,
    pos: int,
    program: ProgramView,
    name: Seq<char>,
)
    requires
        token_at(tokens, skip_newlines(tokens, pos)).kind == TokenKind::Identifier(name),
        token_at(tokens, skip_newlines(tokens, skip_newlines(tokens, pos) + 1)).kind
            == TokenKind::Symbol(Symbol::Equals),
        parse_expr_at(
            tokens,
            skip_newlines(tokens, skip_newlines(tokens, pos) + 1) + 1,
            program,
        ) is Ok,
        end_of_stmt_at(tokens, skip_newlines(tokens, skip_newlines(tokens, pos) + 1) + 2) is Ok,
        program.resolve(name) is Some,
    ensures
        parse_stmt_at(tokens, pos, program) matches Ok(step) && step.program == program
            && step.stmt == Some(
            StmtView::VarAssign(
                name,
                parse_expr_at(
                    tokens,
                    skip_newlines(tokens, skip_newlines(tokens, pos) + 1) + 1,
                    program,
                )->Ok_0.0,
            ),
        ),
{
}

} // verus!
