//! What running a script does to the tracking tables.
//!
//! The ledger is the content of the four tracking tables. A fragment reads
//! the ledger through its guard and, where it records, writes the row of its
//! guard. Nothing else of the database is modelled: the laws proved here are
//! laws of the bookkeeping, which is all that decides what a script runs.

use vstd::prelude::*;
use crate::artifact::Category;
use crate::script::{EntryView, FragmentView};

verus! {

/// The content of the tracking tables: the names of the applied migrations,
/// and for each category the hash recorded under each name.
pub struct Ledger {
    pub migrations: Set<Seq<char>>,
    pub functions: Map<Seq<char>, Seq<char>>,
    pub triggers: Map<Seq<char>, Seq<char>>,
    pub views: Map<Seq<char>, Seq<char>>,
}

impl Ledger {
    /// The ledger of a database that has never been touched.
    pub open spec fn empty() -> Ledger {
        Ledger {
            migrations: Set::empty(),
            functions: Map::empty(),
            triggers: Map::empty(),
            views: Map::empty(),
        }
    }

    /// The hashes recorded for one category.
    pub open spec fn hashes(self, category: Category) -> Map<Seq<char>, Seq<char>> {
        match category {
            Category::Function => self.functions,
            Category::Trigger => self.triggers,
            Category::View => self.views,
        }
    }

    /// Whether the ledger holds a row.
    pub open spec fn holds(self, entry: EntryView) -> bool {
        match entry {
            EntryView::Hash { category, name, hash } => self.hashes(category).contains_key(name)
                && self.hashes(category)[name] == hash,
            EntryView::Migration { name } => self.migrations.contains(name),
        }
    }

    /// The ledger after a row was written: a hash takes the place of the hash
    /// recorded under the same name, a migration is added where it is absent.
    pub open spec fn with(self, entry: EntryView) -> Ledger {
        match entry {
            EntryView::Hash { category, name, hash } => match category {
                Category::Function => Ledger {
                    functions: self.functions.insert(name, hash),
                    ..self
                },
                Category::Trigger => Ledger { triggers: self.triggers.insert(name, hash), ..self },
                Category::View => Ledger { views: self.views.insert(name, hash), ..self },
            },
            EntryView::Migration { name } => Ledger {
                migrations: self.migrations.insert(name),
                ..self
            },
        }
    }
}

/// Two rows that stand in the same place: the same table and the same name.
pub open spec fn same_row(a: EntryView, b: EntryView) -> bool {
    match (a, b) {
        (
            EntryView::Hash { category: c1, name: n1, .. },
            EntryView::Hash { category: c2, name: n2, .. },
        ) => c1 == c2 && n1 == n2,
        (EntryView::Migration { name: n1 }, EntryView::Migration { name: n2 }) => n1 == n2,
        _ => false,
    }
}

/// Whether a fragment's body runs against a ledger.
pub open spec fn runs(fragment: FragmentView, ledger: Ledger) -> bool {
    !ledger.holds(fragment.guard)
}

/// The ledger after one fragment.
pub open spec fn after(ledger: Ledger, fragment: FragmentView) -> Ledger {
    if runs(fragment, ledger) && fragment.record {
        ledger.with(fragment.guard)
    } else {
        ledger
    }
}

/// The ledger after a script's fragments, in order.
pub open spec fn run(fragments: Seq<FragmentView>, ledger: Ledger) -> Ledger
    decreases fragments.len(),
{
    if fragments.len() == 0 {
        ledger
    } else {
        after(run(fragments.drop_last(), ledger), fragments.last())
    }
}

/// The ledger after a bookkeeping-only script wrote the given rows, in order.
pub open spec fn mark(entries: Seq<EntryView>, ledger: Ledger) -> Ledger
    decreases entries.len(),
{
    if entries.len() == 0 {
        ledger
    } else {
        mark(entries.drop_last(), ledger).with(entries.last())
    }
}

/// No two rows of the list contradict each other: rows that stand in the same
/// place are the same row.
pub open spec fn consistent(entries: Seq<EntryView>) -> bool {
    forall|i: int, j: int|
        0 <= i < entries.len() && 0 <= j < entries.len() && same_row(
            #[trigger] entries[i],
            #[trigger] entries[j],
        ) ==> entries[i] == entries[j]
}

/// The guards of the fragments, in order.
pub open spec fn guards(fragments: Seq<FragmentView>) -> Seq<EntryView> {
    fragments.map_values(|f: FragmentView| f.guard)
}

/// A row that was written is held.
pub proof fn lemma_written_row_is_held(ledger: Ledger, entry: EntryView)
    ensures
        ledger.with(entry).holds(entry),
{
}

/// Writing a row leaves every row in another place as it was, and leaves the
/// row itself held where it was held.
pub proof fn lemma_other_rows_stay(ledger: Ledger, written: EntryView, other: EntryView)
    requires
        !same_row(written, other) || written == other,
        ledger.holds(other),
    ensures
        ledger.with(written).holds(other),
{
}

/// After a script whose guards do not contradict each other, the ledger holds
/// the row of every fragment that records.
pub proof fn lemma_recorded_rows_are_held(fragments: Seq<FragmentView>, ledger: Ledger, j: int)
    requires
        consistent(guards(fragments)),
        0 <= j < fragments.len(),
        fragments[j].record,
    ensures
        run(fragments, ledger).holds(fragments[j].guard),
    decreases fragments.len(),
{
    let earlier = fragments.drop_last();
    let last = fragments.last();
    let before = run(earlier, ledger);
    assert forall|a: int, b: int|
        0 <= a < earlier.len() && 0 <= b < earlier.len() && same_row(
            #[trigger] guards(earlier)[a],
            #[trigger] guards(earlier)[b],
        ) implies guards(earlier)[a] == guards(earlier)[b] by {
        assert(guards(earlier)[a] == guards(fragments)[a]);
        assert(guards(earlier)[b] == guards(fragments)[b]);
    }
    if j == fragments.len() - 1 {
        if !runs(last, before) {
        } else {
            lemma_written_row_is_held(before, last.guard);
        }
    } else {
        assert(earlier[j] == fragments[j]);
        lemma_recorded_rows_are_held(earlier, ledger, j);
        if runs(last, before) && last.record {
            assert(guards(fragments)[j] == fragments[j].guard);
            assert(guards(fragments)[fragments.len() - 1] == last.guard);
            lemma_other_rows_stay(before, last.guard, fragments[j].guard);
        }
    }
}

/// A script all of whose rows the ledger holds runs nothing and leaves the
/// ledger as it is.
pub proof fn lemma_held_script_is_idle(fragments: Seq<FragmentView>, ledger: Ledger)
    requires
        forall|i: int| 0 <= i < fragments.len() ==> ledger.holds(#[trigger] fragments[i].guard),
    ensures
        run(fragments, ledger) == ledger,
    decreases fragments.len(),
{
    if fragments.len() > 0 {
        let earlier = fragments.drop_last();
        assert forall|i: int| 0 <= i < earlier.len() implies ledger.holds(
            #[trigger] earlier[i].guard,
        ) by {
            assert(earlier[i] == fragments[i]);
        }
        lemma_held_script_is_idle(earlier, ledger);
    }
}

/// After rows that do not contradict each other were written, the ledger
/// holds every one of them.
pub proof fn lemma_marked_rows_are_held(entries: Seq<EntryView>, ledger: Ledger, j: int)
    requires
        consistent(entries),
        0 <= j < entries.len(),
    ensures
        mark(entries, ledger).holds(entries[j]),
    decreases entries.len(),
{
    let earlier = entries.drop_last();
    let before = mark(earlier, ledger);
    if j < entries.len() - 1 {
        assert forall|a: int, b: int|
            0 <= a < earlier.len() && 0 <= b < earlier.len() && same_row(
                #[trigger] earlier[a],
                #[trigger] earlier[b],
            ) implies earlier[a] == earlier[b] by {
            assert(earlier[a] == entries[a]);
            assert(earlier[b] == entries[b]);
        }
        assert(earlier[j] == entries[j]);
        lemma_marked_rows_are_held(earlier, ledger, j);
        lemma_other_rows_stay(before, entries.last(), entries[j]);
    }
}

} // verus!
