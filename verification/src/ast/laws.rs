//! What holds of symbol tables and scopes: offsets grow by the sizes of the
//! entries, lookups find the first entry of a name, and a declaration keeps
//! a program well formed and its other names as they were.

use vstd::prelude::*;
use crate::ast::{entries_size, lookup_entry, resolve_from, EntryView, ProgramView, TableView, Type};

verus! {

/// The sizes of the entries add up from the front: more entries never take
/// less.
pub proof fn lemma_entries_size_take(entries: Seq<EntryView>, i: int)
    requires
        0 <= i <= entries.len(),
    ensures
        entries_size(entries.take(i)) <= entries_size(entries),
        i < entries.len() ==> entries_size(entries.take(i + 1)) == entries_size(entries.take(i))
            + entries[i].ty.width(),
    decreases entries.len() - i,
{
    if i < entries.len() {
        assert(entries.take(i + 1).drop_last() =~= entries.take(i));
        lemma_entries_size_take(entries, i + 1);
    } else {
        assert(entries.take(i) =~= entries);
    }
}

/// In a well-formed table the next free offset is the scope's offset where
/// the table is empty, and else lies behind the last entry by the size of
/// that entry's type.
pub proof fn lemma_next_offset(table: TableView)
    requires
        table.wf(),
    ensures
        table.entries.len() == 0 ==> table.next_offset() == table.offset,
        table.entries.len() > 0 ==> table.next_offset() == table.entries.last().offset
            + table.entries.last().ty.width(),
{
    let n = table.entries.len() as int;
    if n > 0 {
        assert(table.entries.drop_last() =~= table.entries.take(n - 1));
    }
}

/// Offsets within one scope begin at the scope's offset and grow, in the
/// order of declaration, by the size of each entry's type: strictly, since
/// no type has size zero.
pub proof fn lemma_offsets_increase(table: TableView)
    requires
        table.wf(),
    ensures
        table.entries.len() > 0 ==> table.entries[0].offset == table.offset,
        forall|i: int|
            0 <= i < table.entries.len() - 1 ==> (#[trigger] table.entries[i + 1]).offset
                == table.entries[i].offset + table.entries[i].ty.width(),
        forall|i: int, j: int|
            0 <= i < j < table.entries.len() ==> (#[trigger] table.entries[i]).offset < (
            #[trigger] table.entries[j]).offset,
{
    let entries = table.entries;
    if entries.len() > 0 {
        assert(entries.take(0) =~= Seq::<EntryView>::empty());
    }
    assert forall|i: int| 0 <= i < entries.len() - 1 implies (#[trigger] entries[i + 1]).offset
        == entries[i].offset + entries[i].ty.width() by {
        lemma_entries_size_take(entries, i);
    }
    assert forall|i: int, j: int| 0 <= i < j < entries.len() implies (#[trigger] entries[i]).offset
        < (#[trigger] entries[j]).offset by {
        lemma_offsets_ordered(table, i, j);
    }
}

/// Of two entries of one scope, the one declared later lies at the greater
/// offset.
proof fn lemma_offsets_ordered(table: TableView, i: int, j: int)
    requires
        table.wf(),
        0 <= i < j < table.entries.len(),
    ensures
        table.entries[i].offset < table.entries[j].offset,
    decreases j - i,
{
    lemma_entries_size_take(table.entries, j - 1);
    if i < j - 1 {
        lemma_offsets_ordered(table, i, j - 1);
    }
}

/// A lookup finds nothing exactly when no entry has the name; what it finds
/// is an entry of that name with no entry of that name before it.
pub proof fn lemma_lookup_entry(entries: Seq<EntryView>, name: Seq<char>)
    ensures
        lookup_entry(entries, name) is None <==> forall|i: int|
            0 <= i < entries.len() ==> (#[trigger] entries[i]).name != name,
        (lookup_entry(entries, name) matches Some(e) ==> exists|i: int|
            {
                &&& 0 <= i < entries.len()
                &&& #[trigger] entries[i] == e
                &&& e.name == name
                &&& forall|j: int| 0 <= j < i ==> (#[trigger] entries[j]).name != name
            }),
    decreases entries.len(),
{
    if entries.len() == 0 {
    } else if entries[0].name == name {
    } else {
        let rest = entries.drop_first();
        lemma_lookup_entry(rest, name);
        assert(forall|i: int| 0 <= i < rest.len() ==> rest[i] == entries[i + 1]);
        if lookup_entry(rest, name) is None {
            assert forall|i: int| 0 <= i < entries.len() implies (#[trigger] entries[i]).name
                != name by {
                if i > 0 {
                    assert(rest[i - 1] == entries[i]);
                }
            }
        } else {
            let e = lookup_entry(rest, name)->Some_0;
            let k = choose|i: int|
                {
                    &&& 0 <= i < rest.len()
                    &&& #[trigger] rest[i] == e
                    &&& e.name == name
                    &&& forall|j: int| 0 <= j < i ==> (#[trigger] rest[j]).name != name
                };
            assert(entries[k + 1] == e);
            assert forall|j: int| 0 <= j < k + 1 implies (#[trigger] entries[j]).name != name by {
                if j > 0 {
                    assert(rest[j - 1] == entries[j]);
                }
            }
        }
    }
}

/// A lookup among entries with one more behind them finds what it found
/// before; where it found nothing, it finds the new entry if that has the
/// name.
pub proof fn lemma_lookup_push(entries: Seq<EntryView>, last: EntryView, name: Seq<char>)
    ensures
        (lookup_entry(entries.push(last), name) == match lookup_entry(entries, name) {
            Some(entry) => Some(entry),
            None => if last.name == name {
                Some(last)
            } else {
                None
            },
        }),
    decreases entries.len(),
{
    if entries.len() == 0 {
        assert(entries.push(last).drop_first() =~= entries);
    } else {
        assert(entries.push(last).drop_first() =~= entries.drop_first().push(last));
        if entries[0].name != name {
            lemma_lookup_push(entries.drop_first(), last, name);
        }
    }
}

/// A well-formed table stays well formed when a name that it does not hold
/// is declared.
pub proof fn lemma_table_add_wf(table: TableView, name: Seq<char>, ty: Type)
    requires
        table.wf(),
        !table.declares(name),
    ensures
        table.add(name, ty).wf(),
{
    let after = table.add(name, ty);
    lemma_lookup_entry(table.entries, name);
    assert forall|i: int| 0 <= i < after.entries.len() implies (#[trigger] after.entries[i]).offset
        == after.offset + entries_size(after.entries.take(i)) by {
        if i < table.entries.len() {
            assert(after.entries.take(i) =~= table.entries.take(i));
        } else {
            assert(after.entries.take(i) =~= table.entries);
        }
    }
}

/// What a name resolves to from a scope does not depend on the tables
/// behind that scope.
pub proof fn lemma_resolve_update(
    tables: Seq<TableView>,
    at: int,
    table: TableView,
    from: int,
    name: Seq<char>,
)
    requires
        0 <= from < at < tables.len(),
    ensures
        resolve_from(tables.update(at, table), from, name) == resolve_from(tables, from, name),
    decreases from,
{
    if tables[from].lookup(name) is None {
        if let Some(p) = tables[from].parent {
            if 0 <= p < from {
                lemma_resolve_update(tables, at, table, p, name);
            }
        }
    }
}

/// A name that the current scope declares resolves, to the entry of that
/// scope.
pub proof fn lemma_declared_name_resolves(program: ProgramView, name: Seq<char>)
    requires
        program.declares(name),
    ensures
        program.resolve(name) == program.lookup(name),
{
}

/// Declaring a name that the current scope does not hold keeps the program
/// well formed. The name then resolves to the new entry, at the scope's next
/// free offset, and every other name resolves as before.
pub proof fn lemma_declare(program: ProgramView, name: Seq<char>, ty: Type)
    requires
        program.wf(),
        !program.declares(name),
    ensures
        program.declare(name, ty).wf(),
        program.declare(name, ty).resolve(name) == Some(
            EntryView { name, ty, offset: program.scope().next_offset() },
        ),
        program.declare(name, ty).lookup(name) == Some(
            EntryView { name, ty, offset: program.scope().next_offset() },
        ),
        (forall|other: Seq<char>|
            other != name ==> {
                &&& #[trigger] program.declare(name, ty).resolve(other) == program.resolve(
                    other,
                )
                &&& program.declare(name, ty).lookup(other) == program.lookup(other)
            }),
{
    let after = program.declare(name, ty);
    let entry = EntryView { name, ty, offset: program.scope().next_offset() };
    lemma_table_add_wf(program.scope(), name, ty);
    lemma_lookup_push(program.scope().entries, entry, name);
    assert forall|other: Seq<char>| other != name implies {
        &&& #[trigger] after.resolve(other) == program.resolve(other)
        &&& after.lookup(other) == program.lookup(other)
    } by {
        lemma_lookup_push(program.scope().entries, entry, other);
        if program.scope().lookup(other) is None {
            if let Some(p) = program.scope().parent {
                if 0 <= p < program.curr {
                    lemma_resolve_update(
                        program.tables,
                        program.curr,
                        program.scope().add(name, ty),
                        p,
                        other,
                    );
                }
            }
        }
    }
}

} // verus!
