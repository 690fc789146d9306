//! Code generation: the program printed as assembly text for x86-64 Linux,
//! in NASM syntax.
//!
//! The code is one flat run of instructions under the entry label. The
//! frame base `rbp` is set once, to the stack pointer at entry; a variable
//! lives in the eight bytes at `rbp` minus its offset. Before the first
//! statement the stack pointer is lowered to the deepest of these slots, so
//! that whatever is pushed lies beyond every variable. An expression is
//! computed into `rax` and pushed; the statement that uses it pops it again,
//! so that every statement leaves the stack as it found it. `exit` jumps to
//! the common end, which restores the stack pointer and makes the system
//! call with the status in `rdi`; a program that runs off its end leaves
//! with status zero.

use vstd::prelude::*;
use vstd::string::*;
use crate::ast::laws::{lemma_lookup_entry, lemma_offsets_increase};
use crate::ast::{
    resolve_from, EntryView, Expr, ExprView, Program, ProgramView, Stmt, StmtView, TableView,
};
use crate::text::{append_decimal, append_signed_decimal, int_to_decimal, nat_to_decimal};
use crate::token::Literal;

verus! {

/// The instructions that statements are made of.
pub ghost enum Instr {
    /// Load a literal into `rax`.
    LoadLiteral(int),
    /// Load the variable at the given offset into `rax`.
    LoadVariable(int),
    /// Store `rax` in the variable at the given offset.
    StoreVariable(int),
    /// Push `rax` on the stack.
    Push,
    /// Pop the top of the stack into `rax`.
    PopValue,
    /// Pop the top of the stack into `rdi`, the register of the exit status.
    PopStatus,
    /// Jump to the common end of the program.
    Leave,
}

impl Instr {
    /// The line of assembly text that states the instruction.
    pub open spec fn line(self) -> Seq<char> {
        match self {
            Instr::LoadLiteral(value) => "  mov rax, "@ + int_to_decimal(value) + "\n"@,
            Instr::LoadVariable(offset) => "  mov rax, [rbp - "@ + nat_to_decimal(offset as nat)
                + "]\n"@,
            Instr::StoreVariable(offset) => "  mov [rbp - "@ + nat_to_decimal(offset as nat)
                + "], rax\n"@,
            Instr::Push => "  push rax\n"@,
            Instr::PopValue => "  pop rax\n"@,
            Instr::PopStatus => "  pop rdi\n"@,
            Instr::Leave => "  jmp _exit\n"@,
        }
    }

    /// By how many values the instruction makes the stack deeper.
    pub open spec fn stack_effect(self) -> int {
        match self {
            Instr::Push => 1,
            Instr::PopValue => -1,
            Instr::PopStatus => -1,
            _ => 0,
        }
    }
}

/// The lines of the instructions, one after the other.
pub open spec fn lines(instrs: Seq<Instr>) -> Seq<char>
    decreases instrs.len(),
{
    if instrs.len() == 0 {
        Seq::empty()
    } else {
        lines(instrs.drop_last()) + instrs.last().line()
    }
}

/// How deep the stack is after the instructions, when it held `depth`
/// values before them.
pub open spec fn depth_after(instrs: Seq<Instr>, depth: int) -> int
    decreases instrs.len(),
{
    if instrs.len() == 0 {
        depth
    } else {
        depth_after(instrs.drop_last(), depth) + instrs.last().stack_effect()
    }
}

/// The instructions leave the stack as deep as they found it, and on the
/// way never take a value that they did not push themselves.
pub open spec fn balanced(instrs: Seq<Instr>) -> bool {
    &&& depth_after(instrs, 0) == 0
    &&& forall|k: int| 0 <= k <= instrs.len() ==> depth_after(#[trigger] instrs.take(k), 0) >= 0
}

/// The offset of the variable that `name` resolves to.
pub open spec fn offset_of(program: ProgramView, name: Seq<char>) -> int {
    program.resolve(name)->Some_0.offset
}

/// The instructions that leave the value of `expr` on the stack.
pub open spec fn expr_instrs(program: ProgramView, expr: ExprView) -> Seq<Instr> {
    match expr {
        ExprView::Literal(Literal::Integer(value)) => seq![
            Instr::LoadLiteral(value as int),
            Instr::Push,
        ],
        ExprView::Identifier(name) => seq![
            Instr::LoadVariable(offset_of(program, name)),
            Instr::Push,
        ],
    }
}

/// The instructions of one statement: the value of its expression is
/// pushed, then popped into the status register before the jump to the end,
/// or popped and stored in the variable's slot. A declaration and an
/// assignment store alike; the declaration's slot was allotted by the
/// parser.
pub open spec fn stmt_instrs(program: ProgramView, stmt: StmtView) -> Seq<Instr> {
    match stmt {
        StmtView::Exit(expr) => expr_instrs(program, expr) + seq![Instr::PopStatus, Instr::Leave],
        StmtView::VarDecl(name, expr) => expr_instrs(program, expr) + seq![
            Instr::PopValue,
            Instr::StoreVariable(offset_of(program, name)),
        ],
        StmtView::VarAssign(name, expr) => expr_instrs(program, expr) + seq![
            Instr::PopValue,
            Instr::StoreVariable(offset_of(program, name)),
        ],
    }
}

/// The instructions of the statements, one statement after the other.
pub open spec fn stmts_instrs(program: ProgramView, stmts: Seq<StmtView>) -> Seq<Instr>
    decreases stmts.len(),
{
    if stmts.len() == 0 {
        Seq::empty()
    } else {
        stmts_instrs(program, stmts.drop_last()) + stmt_instrs(program, stmts.last())
    }
}

/// The greatest offset among the entries; zero where there is none.
pub open spec fn deepest_offset(entries: Seq<EntryView>) -> int
    decreases entries.len(),
{
    if entries.len() == 0 {
        0
    } else {
        let before = deepest_offset(entries.drop_last());
        if entries.last().offset > before {
            entries.last().offset
        } else {
            before
        }
    }
}

/// The greatest offset among the entries of all the tables; zero where
/// there is none.
pub open spec fn deepest_slot(tables: Seq<TableView>) -> int
    decreases tables.len(),
{
    if tables.len() == 0 {
        0
    } else {
        let before = deepest_slot(tables.drop_last());
        let here = deepest_offset(tables.last().entries);
        if here > before {
            here
        } else {
            before
        }
    }
}

/// How far the frame of the program's variables reaches below the frame
/// base: the offset of the deepest slot of any scope.
pub open spec fn frame_depth(program: ProgramView) -> int {
    deepest_slot(program.tables)
}

/// The lines at the entry: the entry label, and the frame base set to the
/// top of the stack.
pub open spec fn entry_code() -> Seq<char> {
    "global _start\n"@ + "section .text\n"@ + "_start:\n"@ + "  mov rbp, rsp\n"@
}

/// The line that lowers the stack pointer by `depth` bytes, to the deepest
/// slot of the frame. A frame of no or one variable reaches no deeper than
/// the frame base and needs no such line.
pub open spec fn frame_code(depth: int) -> Seq<char> {
    if depth > 0 {
        "  sub rsp, "@ + nat_to_decimal(depth as nat) + "\n"@
    } else {
        Seq::empty()
    }
}

/// The lines before the first statement: the entry, and the frame of the
/// program's variables set aside.
pub open spec fn prologue(program: ProgramView) -> Seq<char> {
    entry_code() + frame_code(frame_depth(program))
}

/// The lines behind the last statement: status zero for a program that
/// runs off its end, then the common end, which restores the stack pointer
/// and leaves the process.
pub open spec fn epilogue() -> Seq<char> {
    "  mov rdi, 0\n"@ + "_exit:\n"@ + "  mov rsp, rbp\n"@ + "  mov rax, 60\n"@ + "  syscall\n"@
}

/// The assembly text of a program.
pub open spec fn assembly(program: ProgramView) -> Seq<char> {
    prologue(program) + lines(stmts_instrs(program, program.stmts)) + epilogue()
}

/// The lines of two runs of instructions are the lines of the first and
/// then the lines of the second.
pub proof fn lemma_lines_concat(a: Seq<Instr>, b: Seq<Instr>)
    ensures
        lines(a + b) == lines(a) + lines(b),
    decreases b.len(),
{
    if b.len() == 0 {
        assert(a + b =~= a);
        assert(lines(a) + lines(b) =~= lines(a));
    } else {
        assert((a + b).drop_last() =~= a + b.drop_last());
        lemma_lines_concat(a, b.drop_last());
        assert(lines(a) + lines(b.drop_last()) + b.last().line() =~= lines(a) + (lines(
            b.drop_last(),
        ) + b.last().line()));
    }
}

/// The lines of two instructions.
proof fn lemma_lines_pair(first: Instr, second: Instr)
    ensures
        lines(seq![first, second]) == first.line() + second.line(),
{
    let pair = seq![first, second];
    assert(pair.drop_last() =~= seq![first]);
    assert(seq![first].drop_last() =~= Seq::<Instr>::empty());
    assert(lines(Seq::<Instr>::empty()) =~= Seq::<char>::empty());
    assert(lines(seq![first]) =~= first.line());
}

/// The depth behind two runs of instructions is the depth behind the
/// second, begun at the depth behind the first.
pub proof fn lemma_depth_concat(a: Seq<Instr>, b: Seq<Instr>, depth: int)
    ensures
        depth_after(a + b, depth) == depth_after(b, depth_after(a, depth)),
    decreases b.len(),
{
    if b.len() == 0 {
        assert(a + b =~= a);
    } else {
        assert((a + b).drop_last() =~= a + b.drop_last());
        lemma_depth_concat(a, b.drop_last(), depth);
    }
}

/// Every statement leaves the stack as it found it: its code pushes one
/// value, the value of its expression, and pops that value again.
pub proof fn lemma_statement_is_balanced(program: ProgramView, stmt: StmtView)
    ensures
        balanced(stmt_instrs(program, stmt)),
{
    let code = stmt_instrs(program, stmt);
    assert(code.len() == 4);
    assert(code[1] == Instr::Push);
    assert(code[0].stack_effect() == 0);
    assert(code[2].stack_effect() == -1);
    assert(code[3].stack_effect() == 0);
    assert(code.take(0) =~= Seq::<Instr>::empty());
    assert(code.take(1).drop_last() =~= code.take(0));
    assert(code.take(2).drop_last() =~= code.take(1));
    assert(code.take(3).drop_last() =~= code.take(2));
    assert(code.take(4).drop_last() =~= code.take(3));
    assert(code.take(4) =~= code);
    assert(depth_after(code.take(0), 0) == 0);
    assert(depth_after(code.take(1), 0) == 0);
    assert(depth_after(code.take(2), 0) == 1);
    assert(depth_after(code.take(3), 0) == 0);
    assert(depth_after(code.take(4), 0) == 0);
    assert forall|k: int| 0 <= k <= code.len() implies depth_after(#[trigger] code.take(k), 0)
        >= 0 by {
        if k == 0 {
        } else if k == 1 {
        } else if k == 2 {
        } else if k == 3 {
        } else {
        }
    }
}

/// The code of any run of statements leaves the stack as it found it.
proof fn lemma_statements_are_balanced(program: ProgramView, stmts: Seq<StmtView>)
    ensures
        depth_after(stmts_instrs(program, stmts), 0) == 0,
    decreases stmts.len(),
{
    if stmts.len() > 0 {
        lemma_statements_are_balanced(program, stmts.drop_last());
        lemma_statement_is_balanced(program, stmts.last());
        lemma_depth_concat(
            stmts_instrs(program, stmts.drop_last()),
            stmt_instrs(program, stmts.last()),
            0,
        );
    }
}

/// The code of a whole program leaves the stack as it found it.
pub proof fn lemma_program_is_balanced(program: ProgramView)
    ensures
        depth_after(stmts_instrs(program, program.stmts), 0) == 0,
{
    lemma_statements_are_balanced(program, program.stmts);
}

/// No entry lies deeper than the deepest offset of its table.
pub proof fn lemma_deepest_offset(entries: Seq<EntryView>, i: int)
    requires
        0 <= i < entries.len(),
    ensures
        entries[i].offset <= deepest_offset(entries),
        0 <= deepest_offset(entries),
    decreases entries.len(),
{
    if i < entries.len() - 1 {
        lemma_deepest_offset(entries.drop_last(), i);
    } else if entries.len() > 1 {
        lemma_deepest_offset(entries.drop_last(), 0);
    }
}

/// No table reaches deeper than the deepest slot of all.
pub proof fn lemma_deepest_slot(tables: Seq<TableView>, t: int)
    requires
        0 <= t < tables.len(),
    ensures
        deepest_offset(tables[t].entries) <= deepest_slot(tables),
    decreases tables.len(),
{
    if t < tables.len() - 1 {
        lemma_deepest_slot(tables.drop_last(), t);
    }
}

/// What a name resolves to from the scope of table `from` is an entry of
/// one of the tables.
pub proof fn lemma_resolved_entry(tables: Seq<TableView>, from: int, name: Seq<char>)
    ensures
        (resolve_from(tables, from, name) matches Some(entry) ==> exists|t: int, i: int|
            0 <= t < tables.len() && 0 <= i < tables[t].entries.len()
                && #[trigger] tables[t].entries[i] == entry),
    decreases from,
{
    if 0 <= from < tables.len() {
        lemma_lookup_entry(tables[from].entries, name);
        match tables[from].lookup(name) {
            Some(entry) => {
                let i = choose|i: int|
                    0 <= i < tables[from].entries.len() && #[trigger] tables[from].entries[i]
                        == entry;
                assert(tables[from].entries[i] == entry);
            },
            None => {
                if let Some(p) = tables[from].parent {
                    if 0 <= p < from {
                        lemma_resolved_entry(tables, p, name);
                    }
                }
            },
        }
    }
}

/// Every variable lies in the frame: the slot that a name resolves to is no
/// deeper than the frame reaches, so that nothing pushed beyond the frame
/// falls on a variable.
pub proof fn lemma_slot_lies_in_frame(program: ProgramView, name: Seq<char>)
    ensures
        program.resolve(name) matches Some(entry) ==> entry.offset <= frame_depth(program),
{
    lemma_resolved_entry(program.tables, program.curr, name);
    if let Some(entry) = program.resolve(name) {
        let (t, i) = choose|t: int, i: int|
            0 <= t < program.tables.len() && 0 <= i < program.tables[t].entries.len()
                && #[trigger] program.tables[t].entries[i] == entry;
        lemma_deepest_offset(program.tables[t].entries, i);
        lemma_deepest_slot(program.tables, t);
    }
}

/// In a well-formed table that begins at or below the frame base, the
/// deepest slot is that of the entry declared last.
pub proof fn lemma_deepest_is_last(table: TableView)
    requires
        table.wf(),
        table.offset >= 0,
        table.entries.len() > 0,
    ensures
        deepest_offset(table.entries) == table.entries.last().offset,
{
    lemma_deepest_prefix(table, table.entries.len() as int);
    assert(table.entries.take(table.entries.len() as int) =~= table.entries);
}

/// The deepest slot among the first `n` entries of a well-formed table is
/// that of the `n`-th.
proof fn lemma_deepest_prefix(table: TableView, n: int)
    requires
        table.wf(),
        table.offset >= 0,
        0 < n <= table.entries.len(),
    ensures
        deepest_offset(table.entries.take(n)) == table.entries[n - 1].offset,
    decreases n,
{
    let entries = table.entries;
    assert(entries.take(n).drop_last() =~= entries.take(n - 1));
    assert(entries.take(n).last() == entries[n - 1]);
    lemma_offsets_increase(table);
    if n > 1 {
        lemma_deepest_prefix(table, n - 1);
        assert(entries[n - 2].offset < entries[n - 1].offset);
    } else {
        assert(entries.take(0) =~= Seq::<EntryView>::empty());
        assert(deepest_offset(entries.take(0)) == 0);
        assert(entries[0].offset == table.offset);
    }
}

/// A code generator for one program.
pub struct Generator {
    program: Program,
    output: String,
}

impl Generator {
    /// The program that this generator prints.
    pub closed spec fn program(&self) -> ProgramView {
        self.program@
    }

    /// The invariant of the representation, which `new` establishes and
    /// `generate` keeps.
    pub closed spec fn wf(&self) -> bool {
        self.program@.names_resolve()
    }

    /// A generator for `program`, in which every name must resolve, as it
    /// does in every program that the parser returns.
    pub fn new(program: Program) -> (generator: Self)
        requires
            program@.names_resolve(),
        ensures
            generator.wf(),
            generator.program() == program@,
    {
        Self { program, output: String::new() }
    }

    /// How far the frame of the program's variables reaches below the
    /// frame base.
    fn frame_depth(&self) -> (depth: usize)
        ensures
            depth == frame_depth(self.program@),
    {
        let ghost tables = self.program@.tables;
        let mut depth: usize = 0;
        assert(tables.take(0) =~= Seq::<TableView>::empty());
        for t in 0..self.program.symbol_tables.len()
            invariant
                tables == self.program@.tables,
                tables.len() == self.program.symbol_tables.len(),
                depth == deepest_slot(tables.take(t as int)),
        {
            let table = &self.program.symbol_tables[t];
            let ghost entries = table@.entries;
            let mut deepest: usize = 0;
            assert(entries.take(0) =~= Seq::<EntryView>::empty());
            for i in 0..table.entries.len()
                invariant
                    entries == table@.entries,
                    entries.len() == table.entries.len(),
                    deepest == deepest_offset(entries.take(i as int)),
            {
                assert(entries.take(i + 1).drop_last() =~= entries.take(i as int));
                assert(entries.take(i + 1).last() == table.entries@[i as int]@);
                if table.entries[i].offset > deepest {
                    deepest = table.entries[i].offset;
                }
            }
            assert(entries.take(entries.len() as int) =~= entries);
            assert(tables.take(t + 1).drop_last() =~= tables.take(t as int));
            assert(tables.take(t + 1).last() == table@);
            if deepest > depth {
                depth = deepest;
            }
        }
        assert(tables.take(tables.len() as int) =~= tables);
        depth
    }

    /// The code that leaves the value of `expr` on the stack.
    fn gen_expr(&self, expr: &Expr) -> (code: String)
        requires
            self.program@.expr_resolves(expr@),
        ensures
            code@ == lines(expr_instrs(self.program@, expr@)),
    {
        let mut code = String::new();
        match expr {
            Expr::Literal(l) => match l {
                Literal::Integer(i) => {
                    code.append("  mov rax, ");
                    append_signed_decimal(&mut code, *i);
                    code.append("\n");
                    code.append("  push rax\n");
                    proof {
                        lemma_lines_pair(Instr::LoadLiteral(*i as int), Instr::Push);
                    }
                },
            },
            Expr::Identifier(i) => {
                let entry = self.program.find_entry(i.as_str()).unwrap();
                code.append("  mov rax, [rbp - ");
                append_decimal(&mut code, entry.offset as u64);
                code.append("]\n");
                code.append("  push rax\n");
                proof {
                    lemma_lines_pair(Instr::LoadVariable(entry.offset as int), Instr::Push);
                }
            },
        }
        assert(code@ =~= lines(expr_instrs(self.program@, expr@)));
        code
    }

    /// The code of one statement.
    fn gen_stmt(&self, stmt: &Stmt) -> (code: String)
        requires
            self.program@.stmt_resolves(stmt@),
        ensures
            code@ == lines(stmt_instrs(self.program@, stmt@)),
    {
        let mut code = String::new();
        match stmt {
            Stmt::Exit(expr) => {
                code.append(self.gen_expr(expr).as_str());
                code.append("  pop rdi\n");
                code.append("  jmp _exit\n");
                proof {
                    lemma_lines_pair(Instr::PopStatus, Instr::Leave);
                    lemma_lines_concat(
                        expr_instrs(self.program@, expr@),
                        seq![Instr::PopStatus, Instr::Leave],
                    );
                }
            },
            Stmt::VarDecl(name, expr) => {
                code.append(self.gen_expr(expr).as_str());
                code.append("  pop rax\n");
                let entry = self.program.find_entry(name.as_str()).unwrap();
                code.append("  mov [rbp - ");
                append_decimal(&mut code, entry.offset as u64);
                code.append("], rax\n");
                proof {
                    let store = Instr::StoreVariable(entry.offset as int);
                    lemma_lines_pair(Instr::PopValue, store);
                    lemma_lines_concat(
                        expr_instrs(self.program@, expr@),
                        seq![Instr::PopValue, store],
                    );
                }
            },
            Stmt::VarAssign(name, expr) => {
                code.append(self.gen_expr(expr).as_str());
                code.append("  pop rax\n");
                let entry = self.program.find_entry(name.as_str()).unwrap();
                code.append("  mov [rbp - ");
                append_decimal(&mut code, entry.offset as u64);
                code.append("], rax\n");
                proof {
                    let store = Instr::StoreVariable(entry.offset as int);
                    lemma_lines_pair(Instr::PopValue, store);
                    lemma_lines_concat(
                        expr_instrs(self.program@, expr@),
                        seq![Instr::PopValue, store],
                    );
                }
            },
        }
        assert(code@ =~= lines(stmt_instrs(self.program@, stmt@)));
        code
    }

    /// Prints the program as assembly text: the prologue, which sets the
    /// frame of the variables aside, the code of every statement in order,
    /// and the epilogue.
    pub fn generate(&mut self) -> (text: String)
        requires
            old(self).wf(),
        ensures
            final(self).wf(),
            final(self).program() == old(self).program(),
            text@ == assembly(old(self).program()),
    {
        let mut output = String::new();
        output.append("global _start\n");
        output.append("section .text\n");
        output.append("_start:\n");
        output.append("  mov rbp, rsp\n");
        let depth = self.frame_depth();
        if depth > 0 {
            output.append("  sub rsp, ");
            append_decimal(&mut output, depth as u64);
            output.append("\n");
        }
        let ghost program = self.program@;
        assert(output@ =~= prologue(program));
        assert(program.stmts.take(0) =~= Seq::<StmtView>::empty());
        assert(prologue(program) + lines(Seq::<Instr>::empty()) =~= prologue(program));
        for i in 0..self.program.stmts.len()
            invariant
                self.program@ == program,
                program.names_resolve(),
                program.stmts.len() == self.program.stmts.len(),
                output@ == prologue(program) + lines(
                    stmts_instrs(program, program.stmts.take(i as int)),
                ),
        {
            let stmt = &self.program.stmts[i];
            proof {
                assert(program.stmts[i as int] == stmt@);
                assert(program.stmts.take(i + 1).drop_last() =~= program.stmts.take(i as int));
                lemma_lines_concat(
                    stmts_instrs(program, program.stmts.take(i as int)),
                    stmt_instrs(program, stmt@),
                );
            }
            let code = self.gen_stmt(stmt);
            output.append(code.as_str());
            assert(output@ =~= prologue(program) + lines(
                stmts_instrs(program, program.stmts.take(i + 1)),
            ));
        }
        assert(program.stmts.take(program.stmts.len() as int) =~= program.stmts);
        output.append("  mov rdi, 0\n");
        output.append("_exit:\n");
        output.append("  mov rsp, rbp\n");
        output.append("  mov rax, 60\n");
        output.append("  syscall\n");
        assert(output@ =~= assembly(program));
        self.output = output;
        self.output.clone()
    }
}

} // verus!
