//! The bookkeeping-only script: it records every artifact of a tree in the
//! ledger as it stands on disk and runs none of them.

use vstd::prelude::*;
use vstd::string::StringExecFns;
use crate::artifact::{
    file_stem, file_views, sort_sql_files, sorted_sql_files, stem, ArtifactTree, Category,
    FileView, SourceFile, TreeView,
};
use crate::hash::{content_hash, hash_content};
use crate::script::{Entry, EntryView, TABLES_SQL};

verus! {

/// The views of a sequence of entries, in order.
pub open spec fn entry_views(entries: Seq<Entry>) -> Seq<EntryView> {
    entries.map_values(|e: Entry| e@)
}

/// Every hash among the rows is a digest written out in full.
pub open spec fn rows_full_size(entries: Seq<EntryView>) -> bool {
    forall|i: int| 0 <= i < entries.len() ==> (#[trigger] entries[i]).full_size()
}

/// The ledger row of one function, trigger or view file.
pub open spec fn object_entry(category: Category, file: FileView) -> EntryView {
    EntryView::Hash {
        category,
        name: stem(file.file_name),
        hash: content_hash(file.content),
    }
}

/// The ledger row of one migration file.
pub open spec fn migration_entry(file: FileView) -> EntryView {
    EntryView::Migration { name: stem(file.file_name) }
}

/// The rows of a directory's artifact files, in ascending order of file name.
pub open spec fn directory_entries(category: Category, files: Seq<FileView>) -> Seq<EntryView> {
    sorted_sql_files(files).map_values(|f: FileView| object_entry(category, f))
}

/// The rows of all migration files, the bootstrap migration included, in
/// ascending order of file name.
pub open spec fn migration_entries(files: Seq<FileView>) -> Seq<EntryView> {
    sorted_sql_files(files).map_values(|f: FileView| migration_entry(f))
}

/// The rows that the bookkeeping-only script writes: functions, triggers,
/// views, then migrations.
pub open spec fn fake_plan(tree: TreeView) -> Seq<EntryView> {
    directory_entries(Category::Function, tree.functions) + directory_entries(
        Category::Trigger,
        tree.triggers,
    ) + directory_entries(Category::View, tree.views) + migration_entries(tree.migrations)
}

/// The statements that write one row whatever the ledger holds. No artifact
/// text is part of them.
pub open spec fn entry_text(entry: EntryView) -> Seq<char> {
    match entry {
        EntryView::Hash { category, name, hash } => "-- Fake apply "@ + category.table() + " '"@
            + name + "'\n"@ + "INSERT INTO "@ + category.table() + " (name, hash) VALUES ('"@
            + name + "', '"@ + hash + "') \n"@
            + "                ON CONFLICT (name) DO UPDATE SET hash = EXCLUDED.hash, applied_at = CURRENT_TIMESTAMP;\n"@
            + "                RAISE NOTICE '✅ Fake applied: "@ + category.table() + " - "@ + name
            + "';\n"@,
        EntryView::Migration { name } => "-- Fake apply migration '"@ + name + "'\n"@
            + "INSERT INTO pgm_migration (name) VALUES ('"@ + name
            + "') ON CONFLICT (name) DO NOTHING;\n"@
            + "            RAISE NOTICE '✅ Fake applied migration: "@ + name + "';\n"@,
    }
}

/// The statements of the given rows, one after the other.
pub open spec fn entries_text(entries: Seq<EntryView>) -> Seq<char>
    decreases entries.len(),
{
    if entries.len() == 0 {
        Seq::empty()
    } else {
        entries_text(entries.drop_last()) + entry_text(entries.last())
    }
}

/// The text of a bookkeeping-only script that writes the given rows.
pub open spec fn fake_script_text(entries: Seq<EntryView>) -> Seq<char> {
    "DO $pgm$ BEGIN\n"@ + TABLES_SQL@ + entries_text(entries) + "END $pgm$;\n"@
}

/// The bookkeeping-only script of an artifact tree.
pub open spec fn fake_text(tree: TreeView) -> Seq<char> {
    fake_script_text(fake_plan(tree))
}

/// Writes the statements of one row.
pub fn render_entry(entry: &Entry) -> (out: String)
    ensures
        out@ == entry_text(entry@),
{
    match entry {
        Entry::Hash { category, name, hash } => {
            let table = category.table_name();
            let mut out = "-- Fake apply ".to_owned();
            out.append(table);
            out.append(" '");
            out.append(name.as_str());
            out.append("'\n");
            out.append("INSERT INTO ");
            out.append(table);
            out.append(" (name, hash) VALUES ('");
            out.append(name.as_str());
            out.append("', '");
            out.append(hash.as_str());
            out.append("') \n");
            out.append(
                "                ON CONFLICT (name) DO UPDATE SET hash = EXCLUDED.hash, applied_at = CURRENT_TIMESTAMP;\n",
            );
            out.append("                RAISE NOTICE '✅ Fake applied: ");
            out.append(table);
            out.append(" - ");
            out.append(name.as_str());
            out.append("';\n");
            out
        },
        Entry::Migration { name } => {
            let mut out = "-- Fake apply migration '".to_owned();
            out.append(name.as_str());
            out.append("'\n");
            out.append("INSERT INTO pgm_migration (name) VALUES ('");
            out.append(name.as_str());
            out.append("') ON CONFLICT (name) DO NOTHING;\n");
            out.append("            RAISE NOTICE '✅ Fake applied migration: ");
            out.append(name.as_str());
            out.append("';\n");
            out
        },
    }
}

/// Writes the statements of the given rows, one after the other.
pub fn render_entries(entries: &Vec<Entry>) -> (out: String)
    ensures
        out@ == entries_text(entry_views(entries@)),
{
    let ghost all = entry_views(entries@);
    let mut out = String::new();
    let mut i: usize = 0;
    assert(all.take(0) =~= Seq::empty());
    while i < entries.len()
        invariant
            i <= entries.len(),
            all == entry_views(entries@),
            out@ == entries_text(all.take(i as int)),
        decreases entries.len() - i,
    {
        let text = render_entry(&entries[i]);
        out.append(text.as_str());
        proof {
            let next = all.take(i + 1);
            assert(next.drop_last() =~= all.take(i as int));
            assert(next.last() == entries@[i as int]@);
        }
        i += 1;
    }
    assert(all.take(entries.len() as int) =~= all);
    out
}

/// The rows of a directory's artifact files; `category` is `None` for the
/// migrations directory.
fn collect_entries(category: Option<Category>, files: &Vec<SourceFile>) -> (entries: Vec<Entry>)
    ensures
        entry_views(entries@) == match category {
            Some(c) => directory_entries(c, file_views(files@)),
            None => migration_entries(file_views(files@)),
        },
        rows_full_size(entry_views(entries@)),
{
    let sorted = sort_sql_files(files);
    let ghost all = file_views(sorted@);
    let ghost make = |f: FileView|
        match category {
            Some(c) => object_entry(c, f),
            None => migration_entry(f),
        };
    let mut entries: Vec<Entry> = Vec::new();
    let mut i: usize = 0;
    assert(entry_views(entries@) =~= all.take(0).map_values(make));
    while i < sorted.len()
        invariant
            i <= sorted.len(),
            all == file_views(sorted@),
            make == (|f: FileView|
                match category {
                    Some(c) => object_entry(c, f),
                    None => migration_entry(f),
                }),
            entry_views(entries@) == all.take(i as int).map_values(make),
            rows_full_size(entry_views(entries@)),
        decreases sorted.len() - i,
    {
        let ghost before = entry_views(entries@);
        let name = file_stem(sorted[i].file_name.as_str());
        let entry = match category {
            Some(c) => Entry::Hash {
                category: c,
                name,
                hash: hash_content(sorted[i].content.as_str()),
            },
            None => Entry::Migration { name },
        };
        let ghost row = entry@;
        entries.push(entry);
        proof {
            assert(entry_views(entries@) =~= before.push(row));
            assert(all[i as int] == sorted@[i as int]@);
            assert(all.take(i + 1) =~= all.take(i as int).push(all[i as int]));
            assert(entry_views(entries@) =~= before.push(make(all[i as int])));
            assert(all.take(i as int).push(all[i as int]).map_values(make) =~= before.push(
                make(all[i as int]),
            ));
        }
        i += 1;
    }
    proof {
        assert(all.take(sorted.len() as int) =~= all);
        match category {
            Some(c) => {
                assert(all.map_values(make) =~= all.map_values(
                    |f: FileView| object_entry(c, f),
                ));
            },
            None => {
                assert(all.map_values(make) =~= all.map_values(|f: FileView| migration_entry(f)));
            },
        }
    }
    entries
}

/// The rows of one category's directory.
pub fn collect_directory(category: Category, files: &Vec<SourceFile>) -> (entries: Vec<Entry>)
    ensures
        entry_views(entries@) == directory_entries(category, file_views(files@)),
        rows_full_size(entry_views(entries@)),
{
    collect_entries(Some(category), files)
}

/// The rows of the migrations directory.
pub fn collect_migrations(files: &Vec<SourceFile>) -> (entries: Vec<Entry>)
    ensures
        entry_views(entries@) == migration_entries(file_views(files@)),
        rows_full_size(entry_views(entries@)),
{
    collect_entries(None, files)
}

/// The rows that record a whole artifact tree as applied.
pub fn plan_fake(tree: &ArtifactTree) -> (entries: Vec<Entry>)
    ensures
        entry_views(entries@) == fake_plan(tree@),
        rows_full_size(entry_views(entries@)),
{
    let mut entries = collect_directory(Category::Function, &tree.functions);
    let mut triggers = collect_directory(Category::Trigger, &tree.triggers);
    let mut views = collect_directory(Category::View, &tree.views);
    let mut migrations = collect_migrations(&tree.migrations);
    let ghost a = entry_views(entries@);
    let ghost b = entry_views(triggers@);
    let ghost c = entry_views(views@);
    let ghost d = entry_views(migrations@);
    entries.append(&mut triggers);
    assert(entry_views(entries@) =~= a + b);
    entries.append(&mut views);
    assert(entry_views(entries@) =~= a + b + c);
    entries.append(&mut migrations);
    assert(entry_views(entries@) =~= a + b + c + d);
    entries
}

/// Writes a bookkeeping-only script for the given rows.
pub fn render_fake_script(entries: &Vec<Entry>) -> (out: String)
    ensures
        out@ == fake_script_text(entry_views(entries@)),
{
    let statements = render_entries(entries);
    let mut out = "DO $pgm$ BEGIN\n".to_owned();
    out.append(TABLES_SQL);
    out.append(statements.as_str());
    out.append("END $pgm$;\n");
    out
}

/// Records the artifact files of one category's directory as applied, with
/// the hashes of their present texts.
pub fn process_directory_fake(category: Category, files: &Vec<SourceFile>) -> (sql: String)
    ensures
        sql@ == entries_text(directory_entries(category, file_views(files@))),
{
    let entries = collect_directory(category, files);
    render_entries(&entries)
}

/// Records every migration file as applied; a migration that the ledger
/// already holds is left as it is.
pub fn process_migrations_fake(files: &Vec<SourceFile>) -> (sql: String)
    ensures
        sql@ == entries_text(migration_entries(file_views(files@))),
{
    let entries = collect_migrations(files);
    render_entries(&entries)
}

/// Compiles the script that marks a whole artifact tree as applied without
/// running any of it.
pub fn build_fake(tree: &ArtifactTree) -> (sql: String)
    ensures
        sql@ == fake_text(tree@),
{
    let entries = plan_fake(tree);
    render_fake_script(&entries)
}

} // verus!
