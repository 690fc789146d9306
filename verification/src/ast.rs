//! The program that the parser builds and the generator reads: the
//! statements in order, and the symbol tables of the scopes with the storage
//! offset of every declared name.

use vstd::prelude::*;
use vstd::string::*;
use crate::ast::laws::{lemma_entries_size_take, lemma_next_offset, lemma_table_add_wf};
use crate::text::str_eq;
use crate::token::Literal;

pub mod laws;

verus! {

/// The types of the language.
#[derive(Debug, Copy, Clone, PartialEq, Eq, Structural)]
pub enum Type {
    /// A 64-bit signed integer.
    Integer,
}

impl Type {
    /// The number of bytes that a value of the type takes in storage.
    pub open spec fn width(self) -> nat {
        match self {
            Type::Integer => 8,
        }
    }

    /// The number of bytes that a value of the type takes in storage.
    pub fn size(&self) -> (n: usize)
        ensures
            n == self.width(),
    {
        match self {
            Type::Integer => 8,
        }
    }
}

/// A declared name with its type and its distance, in bytes, from the frame
/// base.
#[derive(Debug, PartialEq)]
pub struct SymbolTableEntry {
    pub name: String,
    pub ty: Type,
    pub offset: usize,
}

/// The mathematical value of a symbol-table entry.
pub ghost struct EntryView {
    pub name: Seq<char>,
    pub ty: Type,
    pub offset: int,
}

impl View for SymbolTableEntry {
    type V = EntryView;

    open spec fn view(&self) -> EntryView {
        EntryView { name: self.name@, ty: self.ty, offset: self.offset as int }
    }
}

impl Clone for SymbolTableEntry {
    fn clone(&self) -> (entry: Self)
        ensures
            entry == *self,
    {
        Self { name: self.name.clone(), ty: self.ty, offset: self.offset }
    }
}

impl SymbolTableEntry {
    /// The entry of `name` with type `ty` at `offset`.
    pub fn new(name: String, ty: Type, offset: usize) -> (entry: Self)
        ensures
            entry@ == (EntryView { name: name@, ty, offset: offset as int }),
    {
        Self { name, ty, offset }
    }
}

/// The bytes that the entries take together.
pub open spec fn entries_size(entries: Seq<EntryView>) -> nat
    decreases entries.len(),
{
    if entries.len() == 0 {
        0
    } else {
        entries_size(entries.drop_last()) + entries.last().ty.width()
    }
}

/// The first of the entries that is called `name`.
pub open spec fn lookup_entry(entries: Seq<EntryView>, name: Seq<char>) -> Option<EntryView>
    decreases entries.len(),
{
    if entries.len() == 0 {
        None
    } else if entries[0].name == name {
        Some(entries[0])
    } else {
        lookup_entry(entries.drop_first(), name)
    }
}

/// The symbol table of one scope.
#[derive(Debug, PartialEq)]
pub struct SymbolTable {
    /// The entries in the order of their declaration.
    pub entries: Vec<SymbolTableEntry>,
    /// The offset of the scope's first entry.
    pub offset: usize,
    /// The index of the table of the enclosing scope, if there is one.
    pub parent: Option<usize>,
}

/// The mathematical value of a symbol table.
pub ghost struct TableView {
    pub entries: Seq<EntryView>,
    pub offset: int,
    pub parent: Option<int>,
}

impl TableView {
    /// The bytes that the scope's entries take together.
    pub open spec fn size(self) -> nat {
        entries_size(self.entries)
    }

    /// The offset that the next declaration of the scope receives.
    pub open spec fn next_offset(self) -> int {
        self.offset + self.size()
    }

    /// The entry of `name` in this scope.
    pub open spec fn lookup(self, name: Seq<char>) -> Option<EntryView> {
        lookup_entry(self.entries, name)
    }

    /// Whether this scope declares `name`.
    pub open spec fn declares(self, name: Seq<char>) -> bool {
        self.lookup(name) is Some
    }

    /// The table after the declaration of `name` with type `ty`.
    pub open spec fn add(self, name: Seq<char>, ty: Type) -> TableView {
        TableView {
            entries: self.entries.push(EntryView { name, ty, offset: self.next_offset() }),
            ..self
        }
    }

    /// The invariant of a symbol table: every entry lies at the scope's
    /// offset plus the sizes of the entries declared before it, and no name
    /// occurs twice.
    pub open spec fn wf(self) -> bool {
        &&& forall|i: int|
            0 <= i < self.entries.len() ==> (#[trigger] self.entries[i]).offset == self.offset
                + entries_size(self.entries.take(i))
        &&& forall|i: int, j: int|
            0 <= i < j < self.entries.len() ==> (#[trigger] self.entries[i]).name != (
            #[trigger] self.entries[j]).name
    }
}

/// The values of a sequence of entries, one by one.
pub open spec fn entries_view(entries: Seq<SymbolTableEntry>) -> Seq<EntryView> {
    entries.map_values(|e: SymbolTableEntry| e@)
}

impl View for SymbolTable {
    type V = TableView;

    open spec fn view(&self) -> TableView {
        TableView {
            entries: entries_view(self.entries@),
            offset: self.offset as int,
            parent: match self.parent {
                Some(p) => Some(p as int),
                None => None,
            },
        }
    }
}

impl Clone for SymbolTable {
    fn clone(&self) -> (table: Self)
        ensures
            table@ == self@,
    {
        let table = Self {
            entries: self.entries.clone(),
            offset: self.offset,
            parent: self.parent,
        };
        assert(table@.entries =~= self@.entries);
        table
    }
}

impl SymbolTable {
    /// An empty table for a scope whose first entry will lie at `offset`.
    pub fn new(offset: usize, parent: Option<usize>) -> (table: Self)
        ensures
            table@ == (TableView {
                entries: Seq::empty(),
                offset: offset as int,
                parent: match parent {
                    Some(p) => Some(p as int),
                    None => None,
                },
            }),
            table@.wf(),
    {
        let table = Self { entries: Vec::new(), offset, parent };
        assert(table@.entries =~= Seq::<EntryView>::empty());
        table
    }

    /// The bytes that the entries take together.
    pub fn size(&self) -> (size: usize)
        requires
            self@.size() <= usize::MAX,
        ensures
            size == self@.size(),
    {
        let mut size: usize = 0;
        let ghost entries = self@.entries;
        assert(entries.take(0) =~= Seq::<EntryView>::empty());
        for i in 0..self.entries.len()
            invariant
                entries == self@.entries,
                entries.len() == self.entries.len(),
                entries_size(entries) <= usize::MAX,
                size == entries_size(entries.take(i as int)),
        {
            proof {
                lemma_entries_size_take(entries, i as int);
                lemma_entries_size_take(entries, i + 1);
                assert(entries[i as int] == self.entries@[i as int]@);
            }
            size += self.entries[i].ty.size();
        }
        assert(entries.take(entries.len() as int) =~= entries);
        size
    }

    /// Whether the table is well formed: every entry at the scope's offset
    /// plus the sizes of the entries before it, and no name twice.
    pub fn is_well_formed(&self) -> (ok: bool)
        ensures
            ok == self@.wf(),
    {
        let ghost entries = self@.entries;
        let n = self.entries.len();
        let mut expected: usize = self.offset;
        assert(entries.take(0) =~= Seq::<EntryView>::empty());
        for i in 0..n
            invariant
                entries == self@.entries,
                n == entries.len(),
                n == self.entries.len(),
                i < n ==> expected == self.offset + entries_size(entries.take(i as int)),
                forall|j: int|
                    0 <= j < i ==> (#[trigger] entries[j]).offset == self.offset + entries_size(
                        entries.take(j),
                    ),
                forall|a: int, b: int|
                    0 <= a < b < i ==> (#[trigger] entries[a]).name != (#[trigger] entries[b]).name,
        {
            let entry = &self.entries[i];
            assert(entries[i as int] == entry@);
            if entry.offset != expected {
                return false;
            }
            for j in 0..i
                invariant
                    entries == self@.entries,
                    i < entries.len(),
                    entries.len() == self.entries.len(),
                    entries[i as int] == entry@,
                    forall|a: int| 0 <= a < j ==> (#[trigger] entries[a]).name != entry@.name,
            {
                assert(entries[j as int] == self.entries@[j as int]@);
                if str_eq(self.entries[j].name.as_str(), entry.name.as_str()) {
                    return false;
                }
            }
            if i + 1 < n {
                proof {
                    lemma_entries_size_take(entries, i as int);
                }
                match expected.checked_add(entry.ty.size()) {
                    Some(next) => {
                        expected = next;
                    },
                    None => {
                        assert(entries[i + 1].offset <= usize::MAX);
                        return false;
                    },
                }
            }
        }
        true
    }

    /// The entry of `name` in this scope, if the scope declares it.
    pub fn get(&self, name: &str) -> (found: Option<&SymbolTableEntry>)
        ensures
            entry_view(found) == self@.lookup(name@),
    {
        let ghost entries = self@.entries;
        assert(entries.skip(0) =~= entries);
        for i in 0..self.entries.len()
            invariant
                entries == self@.entries,
                entries.len() == self.entries.len(),
                lookup_entry(entries, name@) == lookup_entry(entries.skip(i as int), name@),
        {
            let entry = &self.entries[i];
            proof {
                assert(entries.skip(i as int)[0] == entry@);
                assert(entries.skip(i as int).drop_first() =~= entries.skip(i + 1));
            }
            if str_eq(entry.name.as_str(), name) {
                return Some(entry);
            }
        }
        None
    }

    /// The offset that the next declaration of a well-formed table receives,
    /// or `None` where that offset lies beyond the machine's integers.
    pub fn next_offset(&self) -> (next: Option<usize>)
        requires
            self@.wf(),
        ensures
            (match next {
                Some(offset) => offset == self@.next_offset(),
                None => self@.next_offset() > usize::MAX,
            }),
    {
        proof {
            lemma_next_offset(self@);
        }
        let n = self.entries.len();
        if n == 0 {
            Some(self.offset)
        } else {
            let last = &self.entries[n - 1];
            assert(self@.entries.last() == last@);
            last.offset.checked_add(last.ty.size())
        }
    }

    /// Declares `name` with type `ty` behind the entries that the scope has:
    /// at the scope's offset where it is the first, and else behind the last
    /// entry by the size of that entry's type. The entries that the scope
    /// had, its offset and its parent stay as they are.
    pub fn add(&mut self, name: String, ty: Type)
        requires
            old(self)@.wf(),
            !old(self)@.declares(name@),
            old(self)@.next_offset() <= usize::MAX,
        ensures
            final(self)@ == old(self)@.add(name@, ty),
            final(self)@.wf(),
            final(self)@.entries.last().offset == (if old(self)@.entries.len() == 0 {
                old(self)@.offset
            } else {
                old(self)@.entries.last().offset + old(self)@.entries.last().ty.width()
            }),
    {
        let offset = self.offset + self.size();
        let ghost before = self@;
        let ghost entry = EntryView { name: name@, ty, offset: offset as int };
        self.entries.push(SymbolTableEntry::new(name, ty, offset));
        proof {
            assert(self@.entries =~= before.entries.push(entry));
            lemma_table_add_wf(before, entry.name, ty);
            lemma_next_offset(before);
        }
    }
}

/// An expression: a literal, or the name of a variable.
#[derive(Debug, PartialEq)]
pub enum Expr {
    Literal(Literal),
    Identifier(String),
}

/// The mathematical value of an expression.
pub ghost enum ExprView {
    Literal(Literal),
    Identifier(Seq<char>),
}

impl View for Expr {
    type V = ExprView;

    open spec fn view(&self) -> ExprView {
        match self {
            Expr::Literal(val) => ExprView::Literal(*val),
            Expr::Identifier(name) => ExprView::Identifier(name@),
        }
    }
}

impl Clone for Expr {
    fn clone(&self) -> (expr: Self)
        ensures
            expr == *self,
    {
        match self {
            Expr::Literal(val) => Expr::Literal(*val),
            Expr::Identifier(name) => Expr::Identifier(name.clone()),
        }
    }
}

/// A statement: leave the program with a status, declare a variable with
/// its first value, or give a declared variable a new value.
#[derive(Debug, PartialEq)]
pub enum Stmt {
    Exit(Expr),
    VarDecl(String, Expr),
    VarAssign(String, Expr),
}

/// The mathematical value of a statement.
pub ghost enum StmtView {
    Exit(ExprView),
    VarDecl(Seq<char>, ExprView),
    VarAssign(Seq<char>, ExprView),
}

impl View for Stmt {
    type V = StmtView;

    open spec fn view(&self) -> StmtView {
        match self {
            Stmt::Exit(expr) => StmtView::Exit(expr@),
            Stmt::VarDecl(name, expr) => StmtView::VarDecl(name@, expr@),
            Stmt::VarAssign(name, expr) => StmtView::VarAssign(name@, expr@),
        }
    }
}

impl Clone for Stmt {
    fn clone(&self) -> (stmt: Self)
        ensures
            stmt == *self,
    {
        match self {
            Stmt::Exit(expr) => Stmt::Exit(expr.clone()),
            Stmt::VarDecl(name, expr) => Stmt::VarDecl(name.clone(), expr.clone()),
            Stmt::VarAssign(name, expr) => Stmt::VarAssign(name.clone(), expr.clone()),
        }
    }
}

/// The values of a sequence of statements, one by one.
pub open spec fn stmts_view(stmts: Seq<Stmt>) -> Seq<StmtView> {
    stmts.map_values(|s: Stmt| s@)
}

/// The values of a sequence of symbol tables, one by one.
pub open spec fn tables_view(tables: Seq<SymbolTable>) -> Seq<TableView> {
    tables.map_values(|t: SymbolTable| t@)
}

/// A program: its statements, the symbol tables of its scopes, and the index
/// of the table of the scope that is current.
#[derive(Debug, PartialEq)]
pub struct Program {
    pub stmts: Vec<Stmt>,
    pub symbol_tables: Vec<SymbolTable>,
    pub curr_table: usize,
}

/// The mathematical value of a program.
pub ghost struct ProgramView {
    pub stmts: Seq<StmtView>,
    pub tables: Seq<TableView>,
    pub curr: int,
}

impl View for Program {
    type V = ProgramView;

    open spec fn view(&self) -> ProgramView {
        ProgramView {
            stmts: stmts_view(self.stmts@),
            tables: tables_view(self.symbol_tables@),
            curr: self.curr_table as int,
        }
    }
}

impl Clone for Program {
    fn clone(&self) -> (program: Self)
        ensures
            program@ == self@,
    {
        let program = Self {
            stmts: self.stmts.clone(),
            symbol_tables: self.symbol_tables.clone(),
            curr_table: self.curr_table,
        };
        assert(program@.stmts =~= self@.stmts);
        assert(program@.tables =~= self@.tables);
        program
    }
}

/// The entry of `name` as seen from the scope of table `i`: the entry of
/// that scope if it declares the name, else that of the nearest enclosing
/// scope that does. A parent is an earlier table; a link that does not lead
/// to one ends the search.
pub open spec fn resolve_from(tables: Seq<TableView>, i: int, name: Seq<char>) -> Option<
    EntryView,
>
    decreases i,
{
    if 0 <= i < tables.len() {
        match tables[i].lookup(name) {
            Some(entry) => Some(entry),
            None => match tables[i].parent {
                Some(p) => if 0 <= p < i {
                    resolve_from(tables, p, name)
                } else {
                    None
                },
                None => None,
            },
        }
    } else {
        None
    }
}

impl ProgramView {
    /// The program that holds nothing yet: no statement, and the empty table
    /// of the outermost scope, at offset zero.
    pub open spec fn empty() -> ProgramView {
        ProgramView {
            stmts: Seq::empty(),
            tables: seq![TableView { entries: Seq::empty(), offset: 0, parent: None }],
            curr: 0,
        }
    }

    /// The invariant of a program: the current scope is one of its tables,
    /// every table is well formed, and every parent is an earlier table, so
    /// that no chain of scopes runs in a circle.
    pub open spec fn wf(self) -> bool {
        &&& 0 <= self.curr < self.tables.len()
        &&& forall|i: int| 0 <= i < self.tables.len() ==> (#[trigger] self.tables[i]).wf()
        &&& forall|i: int|
            0 <= i < self.tables.len() ==> ((#[trigger] self.tables[i]).parent matches Some(p)
                ==> 0 <= p < i)
    }

    /// The table of the current scope.
    pub open spec fn scope(self) -> TableView {
        self.tables[self.curr]
    }

    /// The entry of `name` in the current scope alone.
    pub open spec fn lookup(self, name: Seq<char>) -> Option<EntryView> {
        if 0 <= self.curr < self.tables.len() {
            self.scope().lookup(name)
        } else {
            None
        }
    }

    /// Whether the current scope declares `name`.
    pub open spec fn declares(self, name: Seq<char>) -> bool {
        self.lookup(name) is Some
    }

    /// The entry that `name` resolves to from the current scope.
    pub open spec fn resolve(self, name: Seq<char>) -> Option<EntryView> {
        resolve_from(self.tables, self.curr, name)
    }

    /// The program after the declaration of `name` in the current scope.
    pub open spec fn declare(self, name: Seq<char>, ty: Type) -> ProgramView {
        ProgramView { tables: self.tables.update(self.curr, self.scope().add(name, ty)), ..self }
    }

    /// The program with `stmt` behind its statements.
    pub open spec fn push_stmt(self, stmt: StmtView) -> ProgramView {
        ProgramView { stmts: self.stmts.push(stmt), ..self }
    }

    /// Whether the expression names only what resolves.
    pub open spec fn expr_resolves(self, expr: ExprView) -> bool {
        match expr {
            ExprView::Literal(_) => true,
            ExprView::Identifier(name) => self.resolve(name) is Some,
        }
    }

    /// Whether the statement names only what resolves.
    pub open spec fn stmt_resolves(self, stmt: StmtView) -> bool {
        match stmt {
            StmtView::Exit(expr) => self.expr_resolves(expr),
            StmtView::VarDecl(name, expr) => self.resolve(name) is Some && self.expr_resolves(
                expr,
            ),
            StmtView::VarAssign(name, expr) => self.resolve(name) is Some && self.expr_resolves(
                expr,
            ),
        }
    }

    /// Whether every name in the program's statements resolves from the
    /// current scope: what code generation relies on.
    pub open spec fn names_resolve(self) -> bool {
        forall|i: int| 0 <= i < self.stmts.len() ==> self.stmt_resolves(#[trigger] self.stmts[i])
    }
}

impl Program {
    /// The program that holds nothing yet.
    pub fn new() -> (program: Self)
        ensures
            program@ == ProgramView::empty(),
            program@.wf(),
    {
        let mut symbol_tables: Vec<SymbolTable> = Vec::new();
        symbol_tables.push(SymbolTable::new(0, None));
        let program = Self { stmts: Vec::new(), symbol_tables, curr_table: 0 };
        assert(program@.stmts =~= ProgramView::empty().stmts);
        assert(program@.tables =~= ProgramView::empty().tables);
        program
    }

    /// Puts `stmt` behind the statements.
    pub fn push_stmt(&mut self, stmt: Stmt)
        ensures
            final(self)@ == old(self)@.push_stmt(stmt@),
    {
        self.stmts.push(stmt);
        assert(self@.stmts =~= old(self)@.stmts.push(stmt@));
    }

    /// The offset that the next declaration in the current scope receives,
    /// or `None` where that offset lies beyond the machine's integers.
    pub fn next_offset(&self) -> (next: Option<usize>)
        requires
            self@.wf(),
        ensures
            (match next {
                Some(offset) => offset == self@.scope().next_offset(),
                None => self@.scope().next_offset() > usize::MAX,
            }),
    {
        let table = &self.symbol_tables[self.curr_table];
        assert(self@.tables[self.curr_table as int] == table@);
        table.next_offset()
    }

    /// Declares `name` with type `ty` in the current scope, at the next free
    /// offset of that scope. The statements, the current scope and every
    /// other table stay as they are.
    pub fn push_entry(&mut self, name: String, ty: Type)
        requires
            old(self)@.wf(),
            !old(self)@.declares(name@),
            old(self)@.scope().next_offset() <= usize::MAX,
        ensures
            final(self)@ == old(self)@.declare(name@, ty),
            final(self)@.wf(),
    {
        let ghost before = self@;
        let curr = self.curr_table;
        self.symbol_tables[curr].add(name, ty);
        proof {
            assert(self@.tables =~= before.tables.update(
                curr as int,
                before.scope().add(name@, ty),
            ));
        }
    }

    /// The entry that `name` resolves to: that of the current scope if it
    /// declares the name, else that of the nearest enclosing scope that
    /// does.
    pub fn find_entry(&self, name: &str) -> (found: Option<&SymbolTableEntry>)
        ensures
            entry_view(found) == self@.resolve(name@),
    {
        let ghost tables = self@.tables;
        let mut i = self.curr_table;
        while i < self.symbol_tables.len()
            invariant
                tables == self@.tables,
                resolve_from(tables, i as int, name@) == self@.resolve(name@),
            decreases i,
        {
            let table = &self.symbol_tables[i];
            assert(tables[i as int] == table@);
            if let Some(entry) = table.get(name) {
                return Some(entry);
            }
            match table.parent {
                Some(p) => {
                    if p < i {
                        i = p;
                    } else {
                        return None;
                    }
                },
                None => {
                    return None;
                },
            }
        }
        None
    }

    /// Whether the program is well formed: the current scope is one of its
    /// tables, every table is well formed, and every parent is an earlier
    /// table.
    pub fn is_well_formed(&self) -> (ok: bool)
        ensures
            ok == self@.wf(),
    {
        if self.curr_table >= self.symbol_tables.len() {
            return false;
        }
        let ghost tables = self@.tables;
        for i in 0..self.symbol_tables.len()
            invariant
                tables == self@.tables,
                tables.len() == self.symbol_tables.len(),
                forall|j: int| 0 <= j < i ==> (#[trigger] tables[j]).wf(),
                forall|j: int|
                    0 <= j < i ==> ((#[trigger] tables[j]).parent matches Some(p) ==> 0 <= p < j),
        {
            let table = &self.symbol_tables[i];
            assert(tables[i as int] == table@);
            if !table.is_well_formed() {
                return false;
            }
            if let Some(p) = table.parent {
                if p >= i {
                    return false;
                }
            }
        }
        true
    }

    /// Whether every name in the expression resolves.
    pub fn resolves_expr(&self, expr: &Expr) -> (ok: bool)
        ensures
            ok == self@.expr_resolves(expr@),
    {
        match expr {
            Expr::Literal(_) => true,
            Expr::Identifier(name) => self.find_entry(name.as_str()).is_some(),
        }
    }

    /// Whether every name in the statement resolves.
    pub fn resolves_stmt(&self, stmt: &Stmt) -> (ok: bool)
        ensures
            ok == self@.stmt_resolves(stmt@),
    {
        match stmt {
            Stmt::Exit(expr) => self.resolves_expr(expr),
            Stmt::VarDecl(name, expr) => self.find_entry(name.as_str()).is_some()
                && self.resolves_expr(expr),
            Stmt::VarAssign(name, expr) => self.find_entry(name.as_str()).is_some()
                && self.resolves_expr(expr),
        }
    }

    /// Whether every name in the program's statements resolves, so that
    /// code can be generated for it.
    pub fn resolves_names(&self) -> (ok: bool)
        ensures
            ok == self@.names_resolve(),
    {
        let ghost program = self@;
        for i in 0..self.stmts.len()
            invariant
                program == self@,
                program.stmts.len() == self.stmts.len(),
                forall|j: int| 0 <= j < i ==> program.stmt_resolves(#[trigger] program.stmts[j]),
        {
            assert(program.stmts[i as int] == self.stmts@[i as int]@);
            if !self.resolves_stmt(&self.stmts[i]) {
                return false;
            }
        }
        true
    }

    /// The entry of `name` in the current scope alone, if that scope
    /// declares it.
    pub fn find_in_scope(&self, name: &str) -> (found: Option<&SymbolTableEntry>)
        ensures
            entry_view(found) == self@.lookup(name@),
    {
        if self.curr_table < self.symbol_tables.len() {
            let table = &self.symbol_tables[self.curr_table];
            assert(self@.tables[self.curr_table as int] == table@);
            table.get(name)
        } else {
            None
        }
    }
}

/// The value of the entry that a lookup returned.
pub open spec fn entry_view(found: Option<&SymbolTableEntry>) -> Option<EntryView> {
    match found {
        Some(entry) => Some(entry@),
        None => None,
    }
}

} // verus!
