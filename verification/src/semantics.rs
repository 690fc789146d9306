//! What a program means, and what its code computes.
//!
//! The meaning of a program is the status with which it leaves: the value
//! of the expression of the first `exit` that it comes to, with every
//! variable holding what was last stored in it; zero where it comes to
//! none. The code is run on a model of the machine that holds what the
//! instructions of statements touch: the registers `rax` and `rdi`, the
//! distance of the stack pointer below the frame base, and the eight-byte
//! words of memory below the frame base. Variables and pushed values lie in
//! the same memory, so that the model tells a frame that is set aside from
//! one that is not. The law of this module is that the code of a program
//! that the parser returns leaves with the status that the program means.
//!
//! The model leaves out what the instructions of statements do not touch:
//! the encoding of the instructions, the other registers and the flags. The
//! operating system hands the low eight bits of the status to the parent
//! process (`exit_status`).

use vstd::prelude::*;
use crate::ast::laws::lemma_lookup_entry;
use crate::ast::{ExprView, ProgramView, StmtView};
use crate::codegen::{
    expr_instrs, frame_depth, lemma_slot_lies_in_frame, offset_of, stmt_instrs, stmts_instrs,
    Instr,
};
use crate::parser::grammar::parse_tokens;
use crate::parser::laws::{
    declared_names, lemma_parsed_program_is_well_scoped, lemma_resolves_iff_listed,
    lemma_well_scoped_declarations, stmt_uses, well_scoped,
};
use crate::token::{Literal, TokenView};

verus! {

/// How far a program has come: it is still running, with the values of its
/// variables by name, or it has left with a status.
pub ghost enum Meaning {
    Running(Map<Seq<char>, int>),
    Exited(int),
}

/// The value of an expression where the variables hold `env`.
pub open spec fn expr_value(expr: ExprView, env: Map<Seq<char>, int>) -> int {
    match expr {
        ExprView::Literal(Literal::Integer(value)) => value as int,
        ExprView::Identifier(name) => env[name],
    }
}

/// What one statement does where the variables hold `env`: `exit` leaves
/// with the value of its expression; a declaration and an assignment store
/// that value in the variable.
pub open spec fn stmt_meaning(stmt: StmtView, env: Map<Seq<char>, int>) -> Meaning {
    match stmt {
        StmtView::Exit(expr) => Meaning::Exited(expr_value(expr, env)),
        StmtView::VarDecl(name, expr) => Meaning::Running(env.insert(name, expr_value(expr, env))),
        StmtView::VarAssign(name, expr) => Meaning::Running(
            env.insert(name, expr_value(expr, env)),
        ),
    }
}

/// What the statements do, one after the other, from the start of the
/// program. Nothing behind an `exit` is done.
pub open spec fn stmts_meaning(stmts: Seq<StmtView>) -> Meaning
    decreases stmts.len(),
{
    if stmts.len() == 0 {
        Meaning::Running(Map::empty())
    } else {
        match stmts_meaning(stmts.drop_last()) {
            Meaning::Exited(status) => Meaning::Exited(status),
            Meaning::Running(env) => stmt_meaning(stmts.last(), env),
        }
    }
}

/// The status with which the program leaves: that of its first `exit`, or
/// zero where it runs off its end.
pub open spec fn program_status(program: ProgramView) -> int {
    match stmts_meaning(program.stmts) {
        Meaning::Exited(status) => status,
        Meaning::Running(_) => 0,
    }
}

/// What the parent process sees of a status: its low eight bits.
pub open spec fn exit_status(status: int) -> int {
    status % 256
}

/// The part of the machine that the instructions of statements touch.
pub ghost struct Machine {
    /// The register in which expressions are computed.
    pub rax: int,
    /// The register of the exit status.
    pub rdi: int,
    /// How many bytes the stack pointer lies below the frame base.
    pub depth: int,
    /// The words of memory below the frame base, each by its distance from
    /// the frame base in bytes.
    pub memory: Map<int, int>,
}

/// How far the code has come: the machine is still running, or it has left
/// for the common end with a status.
pub ghost enum Run {
    Running(Machine),
    Left(int),
}

/// What one instruction does to the machine. A push lowers the stack
/// pointer by one word and stores `rax` there; a pop loads the word at the
/// stack pointer and raises the stack pointer again.
pub open spec fn step(instr: Instr, m: Machine) -> Run {
    match instr {
        Instr::LoadLiteral(value) => Run::Running(Machine { rax: value, ..m }),
        Instr::LoadVariable(offset) => Run::Running(Machine { rax: m.memory[offset], ..m }),
        Instr::StoreVariable(offset) => Run::Running(
            Machine { memory: m.memory.insert(offset, m.rax), ..m },
        ),
        Instr::Push => Run::Running(
            Machine { depth: m.depth + 8, memory: m.memory.insert(m.depth + 8, m.rax), ..m },
        ),
        Instr::PopValue => Run::Running(
            Machine { rax: m.memory[m.depth], depth: m.depth - 8, ..m },
        ),
        Instr::PopStatus => Run::Running(
            Machine { rdi: m.memory[m.depth], depth: m.depth - 8, ..m },
        ),
        Instr::Leave => Run::Left(m.rdi),
    }
}

/// What the instructions do, one after the other, to the machine `m`.
/// Nothing behind a jump to the common end is done.
pub open spec fn run(instrs: Seq<Instr>, m: Machine) -> Run
    decreases instrs.len(),
{
    if instrs.len() == 0 {
        Run::Running(m)
    } else {
        match run(instrs.drop_last(), m) {
            Run::Left(status) => Run::Left(status),
            Run::Running(after) => step(instrs.last(), after),
        }
    }
}

/// The status with which the code of the program leaves, begun on the
/// machine `m`: that in `rdi` at the first jump to the common end, or the
/// zero that the epilogue puts there where no statement jumps.
pub open spec fn code_status(program: ProgramView, m: Machine) -> int {
    match run(stmts_instrs(program, program.stmts), m) {
        Run::Left(status) => status,
        Run::Running(_) => 0,
    }
}

/// The machine `m` is as the prologue leaves it: the stack pointer lies at
/// the deepest slot of the frame. Registers and memory hold whatever they
/// hold.
pub open spec fn started(program: ProgramView, m: Machine) -> bool {
    m.depth == frame_depth(program)
}

/// Running two runs of instructions is running the second where the first
/// has left the machine.
pub proof fn lemma_run_concat(a: Seq<Instr>, b: Seq<Instr>, m: Machine)
    ensures
        run(a + b, m) == (match run(a, m) {
            Run::Left(status) => Run::Left(status),
            Run::Running(after) => run(b, after),
        }),
    decreases b.len(),
{
    if b.len() == 0 {
        assert(a + b =~= a);
    } else {
        assert((a + b).drop_last() =~= a + b.drop_last());
        lemma_run_concat(a, b.drop_last(), m);
    }
}

/// Running instructions and then one more.
proof fn lemma_run_push(instrs: Seq<Instr>, last: Instr, m: Machine)
    ensures
        run(instrs.push(last), m) == (match run(instrs, m) {
            Run::Left(status) => Run::Left(status),
            Run::Running(after) => step(last, after),
        }),
{
    assert(instrs.push(last).drop_last() =~= instrs);
}

/// The four instructions of a statement, run one after the other.
proof fn lemma_run_four(a: Instr, b: Instr, c: Instr, d: Instr, m: Machine)
    requires
        step(a, m) is Running,
        step(b, step(a, m)->Running_0) is Running,
        step(c, step(b, step(a, m)->Running_0)->Running_0) is Running,
    ensures
        run(seq![a, b, c, d], m) == step(
            d,
            step(c, step(b, step(a, m)->Running_0)->Running_0)->Running_0,
        ),
{
    let none = Seq::<Instr>::empty();
    assert(run(none, m) == Run::Running(m));
    lemma_run_push(none, a, m);
    lemma_run_push(none.push(a), b, m);
    lemma_run_push(none.push(a).push(b), c, m);
    lemma_run_push(none.push(a).push(b).push(c), d, m);
    assert(none.push(a).push(b).push(c).push(d) =~= seq![a, b, c, d]);
}

/// The machine holds what the variables hold: the stack pointer lies at the
/// deepest slot of the frame, and the slot of every variable in `names`
/// holds the variable's value.
pub open spec fn agrees(
    program: ProgramView,
    names: Seq<Seq<char>>,
    env: Map<Seq<char>, int>,
    m: Machine,
) -> bool {
    &&& started(program, m)
    &&& forall|name: Seq<char>| #[trigger]
        names.contains(name) ==> env.dom().contains(name) && m.memory[offset_of(program, name)]
            == env[name]
}

/// The code has come as far as the program, with the same outcome: both
/// have left, with the same status, or both are running and the machine
/// holds what the variables hold.
pub open spec fn simulates(
    program: ProgramView,
    names: Seq<Seq<char>>,
    meaning: Meaning,
    run: Run,
) -> bool {
    match meaning {
        Meaning::Exited(status) => run == Run::Left(status),
        Meaning::Running(env) => run matches Run::Running(m) && agrees(program, names, env, m),
    }
}

/// What the first statements of a program declare, the whole program
/// declares.
proof fn lemma_declared_names_prefix(stmts: Seq<StmtView>, k: int, name: Seq<char>)
    requires
        0 <= k <= stmts.len(),
        declared_names(stmts.take(k)).contains(name),
    ensures
        declared_names(stmts).contains(name),
    decreases stmts.len() - k,
{
    if k < stmts.len() {
        assert(stmts.take(k + 1).drop_last() =~= stmts.take(k));
        let before = declared_names(stmts.take(k));
        let i = choose|i: int| 0 <= i < before.len() && before[i] == name;
        let after = declared_names(stmts.take(k + 1));
        assert(after[i] == name);
        lemma_declared_names_prefix(stmts, k + 1, name);
    } else {
        assert(stmts.take(k) =~= stmts);
    }
}

/// In a well-scoped program every declared name has a slot of its own in
/// the frame: the slots of two names are different words, and neither is
/// the word beyond the frame that a push writes.
proof fn lemma_slots_are_apart(program: ProgramView, a: Seq<char>, b: Seq<char>)
    requires
        well_scoped(program),
        declared_names(program.stmts).contains(a),
        declared_names(program.stmts).contains(b),
    ensures
        program.resolve(a) is Some,
        offset_of(program, a) <= frame_depth(program),
        a != b ==> offset_of(program, a) != offset_of(program, b),
{
    lemma_resolves_iff_listed(program, a);
    lemma_resolves_iff_listed(program, b);
    lemma_slot_lies_in_frame(program, a);
    lemma_well_scoped_declarations(program);
    let entries = program.tables[0].entries;
    lemma_lookup_entry(entries, a);
    lemma_lookup_entry(entries, b);
    let i = choose|i: int|
        0 <= i < entries.len() && #[trigger] entries[i] == program.resolve(a)->Some_0
            && entries[i].name == a;
    let j = choose|j: int|
        0 <= j < entries.len() && #[trigger] entries[j] == program.resolve(b)->Some_0
            && entries[j].name == b;
    assert(entries[i].offset == 8 * i);
    assert(entries[j].offset == 8 * j);
}

/// The code of one statement does to the machine what the statement does to
/// the variables, where the machine holds what the variables hold and the
/// statement uses only variables in `names`.
proof fn lemma_statement_simulates(
    program: ProgramView,
    names: Seq<Seq<char>>,
    stmt: StmtView,
    env: Map<Seq<char>, int>,
    m: Machine,
)
    requires
        well_scoped(program),
        agrees(program, names, env, m),
        forall|name: Seq<char>| #[trigger]
            names.contains(name) ==> declared_names(program.stmts).contains(name),
        forall|name: Seq<char>| stmt_uses(stmt, name) ==> names.contains(name),
        stmt matches StmtView::VarDecl(name, _) ==> declared_names(program.stmts).contains(name),
    ensures
        simulates(
            program,
            match stmt {
                StmtView::VarDecl(name, _) => names.push(name),
                _ => names,
            },
            stmt_meaning(stmt, env),
            run(stmt_instrs(program, stmt), m),
        ),
{
    let expr = match stmt {
        StmtView::Exit(expr) => expr,
        StmtView::VarDecl(_, expr) => expr,
        StmtView::VarAssign(_, expr) => expr,
    };
    let value = expr_value(expr, env);
    let load = expr_instrs(program, expr)[0];
    // The expression leaves its value in `rax`.
    let loaded = step(load, m)->Running_0;
    assert(loaded.rax == value && loaded.depth == m.depth && loaded.memory == m.memory) by {
        if let ExprView::Identifier(used) = expr {
            assert(stmt_uses(stmt, used));
            assert(names.contains(used));
        }
    }
    let pushed = step(Instr::Push, loaded)->Running_0;
    match stmt {
        StmtView::Exit(_) => {
            let code = seq![load, Instr::Push, Instr::PopStatus, Instr::Leave];
            assert(stmt_instrs(program, stmt) =~= code);
            lemma_run_four(load, Instr::Push, Instr::PopStatus, Instr::Leave, m);
        },
        StmtView::VarDecl(target, _) => {
            let store = Instr::StoreVariable(offset_of(program, target));
            let code = seq![load, Instr::Push, Instr::PopValue, store];
            assert(stmt_instrs(program, stmt) =~= code);
            lemma_run_four(load, Instr::Push, Instr::PopValue, store, m);
            let after = run(code, m)->Running_0;
            let held = names.push(target);
            assert forall|name: Seq<char>| #[trigger] held.contains(name) implies env.insert(
                target,
                value,
            ).dom().contains(name) && after.memory[offset_of(program, name)] == env.insert(
                target,
                value,
            )[name] by {
                if name != target {
                    let i = choose|i: int| 0 <= i < held.len() && held[i] == name;
                    assert(names[i] == name);
                    assert(names.contains(name));
                    lemma_slots_are_apart(program, name, target);
                } else {
                    lemma_slots_are_apart(program, target, target);
                }
            }
        },
        StmtView::VarAssign(target, _) => {
            let store = Instr::StoreVariable(offset_of(program, target));
            let code = seq![load, Instr::Push, Instr::PopValue, store];
            assert(stmt_instrs(program, stmt) =~= code);
            lemma_run_four(load, Instr::Push, Instr::PopValue, store, m);
            let after = run(code, m)->Running_0;
            assert(stmt_uses(stmt, target));
            assert(names.contains(target));
            assert forall|name: Seq<char>| #[trigger] names.contains(name) implies env.insert(
                target,
                value,
            ).dom().contains(name) && after.memory[offset_of(program, name)] == env.insert(
                target,
                value,
            )[name] by {
                lemma_slots_are_apart(program, target, name);
                lemma_slots_are_apart(program, name, target);
            }
        },
    }
}

/// The code of the first `k` statements of a well-scoped program has come
/// as far as those statements, with the same outcome.
proof fn lemma_statements_simulate(program: ProgramView, k: int, m: Machine)
    requires
        well_scoped(program),
        started(program, m),
        0 <= k <= program.stmts.len(),
    ensures
        simulates(
            program,
            declared_names(program.stmts.take(k)),
            stmts_meaning(program.stmts.take(k)),
            run(stmts_instrs(program, program.stmts.take(k)), m),
        ),
    decreases k,
{
    let stmts = program.stmts;
    if k == 0 {
        assert(stmts.take(0) =~= Seq::<StmtView>::empty());
    } else {
        let before = stmts.take(k - 1);
        let stmt = stmts[k - 1];
        assert(stmts.take(k).drop_last() =~= before);
        assert(stmts.take(k).last() == stmt);
        lemma_statements_simulate(program, k - 1, m);
        lemma_run_concat(stmts_instrs(program, before), stmt_instrs(program, stmt), m);
        if let Meaning::Running(env) = stmts_meaning(before) {
            let names = declared_names(before);
            let after = run(stmts_instrs(program, before), m)->Running_0;
            assert forall|name: Seq<char>| #[trigger] names.contains(name) implies declared_names(
                stmts,
            ).contains(name) by {
                lemma_declared_names_prefix(stmts, k - 1, name);
            }
            assert forall|name: Seq<char>| stmt_uses(stmt, name) implies names.contains(name) by {
                assert(stmt_uses(stmts[k - 1], name));
            }
            if let StmtView::VarDecl(name, _) = stmt {
                let declared = declared_names(stmts.take(k));
                assert(declared.last() == name);
                lemma_declared_names_prefix(stmts, k, name);
            }
            lemma_statement_simulates(program, names, stmt, env, after);
        }
    }
}

/// The code computes the program: begun on a machine as the prologue leaves
/// it, whatever its registers and memory hold, the code of a well-scoped
/// program leaves with the status that the program means.
pub proof fn lemma_code_computes_program(program: ProgramView, m: Machine)
    requires
        well_scoped(program),
        started(program, m),
    ensures
        code_status(program, m) == program_status(program),
{
    lemma_statements_simulate(program, program.stmts.len() as int, m);
    assert(program.stmts.take(program.stmts.len() as int) =~= program.stmts);
}

/// What the parser returns, the code computes: the code of a program
/// parsed from any tokens leaves with the status that the program means.
pub proof fn lemma_parsed_code_computes_program(tokens: Seq<TokenView>, m: Machine)
    ensures
        parse_tokens(tokens) matches Ok(program) ==> (started(program, m) ==> code_status(
            program,
            m,
        ) == program_status(program)),
{
    lemma_parsed_program_is_well_scoped(tokens);
    if let Ok(program) = parse_tokens(tokens) {
        if started(program, m) {
            lemma_code_computes_program(program, m);
        }
    }
}

/// Statements of which none is an `exit` leave the program running.
proof fn lemma_runs_without_exit(stmts: Seq<StmtView>, k: int)
    requires
        0 <= k <= stmts.len(),
        forall|j: int| 0 <= j < k ==> !((#[trigger] stmts[j]) is Exit),
    ensures
        stmts_meaning(stmts.take(k)) is Running,
    decreases k,
{
    if k > 0 {
        assert(stmts.take(k).drop_last() =~= stmts.take(k - 1));
        assert(stmts.take(k).last() == stmts[k - 1]);
        lemma_runs_without_exit(stmts, k - 1);
    }
}

/// A program that has left has left for good: more statements behind do not
/// change its status.
proof fn lemma_exited_stays(stmts: Seq<StmtView>, i: int, k: int)
    requires
        0 <= i <= k <= stmts.len(),
        stmts_meaning(stmts.take(i)) is Exited,
    ensures
        stmts_meaning(stmts.take(k)) == stmts_meaning(stmts.take(i)),
    decreases k - i,
{
    if i < k {
        assert(stmts.take(k).drop_last() =~= stmts.take(k - 1));
        lemma_exited_stays(stmts, i, k - 1);
    }
}

/// A program whose first `exit` has a literal leaves with that literal: the
/// parent process sees its low eight bits, whatever else the program
/// declares and assigns, and whatever stands behind that `exit`.
pub proof fn lemma_exit_with_literal(program: ProgramView, at: int, value: i64, m: Machine)
    requires
        well_scoped(program),
        started(program, m),
        0 <= at < program.stmts.len(),
        program.stmts[at] == StmtView::Exit(ExprView::Literal(Literal::Integer(value))),
        forall|j: int| 0 <= j < at ==> !((#[trigger] program.stmts[j]) is Exit),
    ensures
        code_status(program, m) == value,
        exit_status(code_status(program, m)) == value as int % 256,
{
    let stmts = program.stmts;
    lemma_runs_without_exit(stmts, at);
    assert(stmts.take(at + 1).drop_last() =~= stmts.take(at));
    assert(stmts.take(at + 1).last() == stmts[at]);
    lemma_exited_stays(stmts, at + 1, stmts.len() as int);
    assert(stmts.take(stmts.len() as int) =~= stmts);
    lemma_code_computes_program(program, m);
}

} // verus!
