//! The compiled script as a list of typed fragments, and its text.
//!
//! A fragment is one guarded block: the stage it belongs to, the artifact it
//! came from, the condition under which its body runs and whether running it
//! is recorded in the ledger. The script's text is a function of the list of
//! fragments alone.

use vstd::prelude::*;
use vstd::string::StringExecFns;
use crate::artifact::{
    bootstrap_file_name, file_views, sort_sql_files, sorted_sql_files, stem,
    ArtifactTree, Category, FileView, SourceFile, TreeView, INITIAL_MIGRATION_FILE_NAME,
};
use crate::hash::{content_hash, hash_content};
use crate::text::{filter_lines, filter_text_lines, text_eq, LineRule};

verus! {

/// The statements that create the four tracking tables where they are absent.
pub const TABLES_SQL: &'static str = "
-- Create tables if they don't exist
CREATE TABLE IF NOT EXISTS pgm_migration (
    name TEXT PRIMARY KEY,
    applied_at TIMESTAMP WITH TIME ZONE DEFAULT CURRENT_TIMESTAMP
);

CREATE TABLE IF NOT EXISTS pgm_function (
    name TEXT PRIMARY KEY,
    hash TEXT NOT NULL,
    applied_at TIMESTAMP WITH TIME ZONE DEFAULT CURRENT_TIMESTAMP
);

CREATE TABLE IF NOT EXISTS pgm_trigger (
    name TEXT PRIMARY KEY,
    hash TEXT NOT NULL,
    applied_at TIMESTAMP WITH TIME ZONE DEFAULT CURRENT_TIMESTAMP
);

CREATE TABLE IF NOT EXISTS pgm_view (
    name TEXT PRIMARY KEY,
    hash TEXT NOT NULL,
    applied_at TIMESTAMP WITH TIME ZONE DEFAULT CURRENT_TIMESTAMP
);
";

/// The statements that create the tracking tables, as an owned text.
pub fn pgm_tables_create_sql() -> (sql: String)
    ensures
        sql@ == TABLES_SQL@,
{
    TABLES_SQL.to_owned()
}

/// The seven stages of a compiled script, in the order in which they run.
#[derive(Clone, Copy, Debug, PartialEq, Eq, Structural)]
pub enum Stage {
    Bootstrap,
    FunctionsFirstPass,
    TriggersFirstPass,
    Migrations,
    Views,
    FunctionsSecondPass,
    TriggersSecondPass,
}

impl Stage {
    /// The position of the stage in the script.
    pub open spec fn rank(self) -> int {
        match self {
            Stage::Bootstrap => 0,
            Stage::FunctionsFirstPass => 1,
            Stage::TriggersFirstPass => 2,
            Stage::Migrations => 3,
            Stage::Views => 4,
            Stage::FunctionsSecondPass => 5,
            Stage::TriggersSecondPass => 6,
        }
    }

    /// Whether the stage runs after function bodies are checked again.
    pub open spec fn checked(self) -> bool {
        self.rank() >= 5
    }

    /// Whether the stage runs after function bodies are checked again.
    pub fn is_checked(self) -> (r: bool)
        ensures
            r == self.checked(),
    {
        match self {
            Stage::FunctionsSecondPass => true,
            Stage::TriggersSecondPass => true,
            _ => false,
        }
    }
}

/// The stage of a directory pass: functions and triggers have one stage for
/// the pass that records hashes and one for the pass that does not; views
/// have a single stage.
pub open spec fn object_stage(category: Category, record: bool) -> Stage {
    match category {
        Category::Function => if record {
            Stage::FunctionsSecondPass
        } else {
            Stage::FunctionsFirstPass
        },
        Category::Trigger => if record {
            Stage::TriggersSecondPass
        } else {
            Stage::TriggersFirstPass
        },
        Category::View => Stage::Views,
    }
}

/// The stage of a directory pass.
pub fn stage_of_object(category: Category, record: bool) -> (stage: Stage)
    ensures
        stage == object_stage(category, record),
{
    match category {
        Category::Function => if record {
            Stage::FunctionsSecondPass
        } else {
            Stage::FunctionsFirstPass
        },
        Category::Trigger => if record {
            Stage::TriggersSecondPass
        } else {
            Stage::TriggersFirstPass
        },
        Category::View => Stage::Views,
    }
}

/// One row of the ledger that the tracking tables keep. A fragment is gated
/// by the row that records it: its body runs unless the ledger holds the row.
#[derive(Debug, PartialEq, Eq)]
pub enum Entry {
    /// The table of `category` records `hash` for `name`.
    Hash { category: Category, name: String, hash: String },
    /// The migration table holds `name`.
    Migration { name: String },
}

/// What an `Entry` is in contracts.
pub enum EntryView {
    Hash { category: Category, name: Seq<char>, hash: Seq<char> },
    Migration { name: Seq<char> },
}

impl View for Entry {
    type V = EntryView;

    open spec fn view(&self) -> EntryView {
        match self {
            Entry::Hash { category, name, hash } => EntryView::Hash {
                category: *category,
                name: name@,
                hash: hash@,
            },
            Entry::Migration { name } => EntryView::Migration { name: name@ },
        }
    }
}

impl EntryView {
    /// A hash row holds a digest written out in full: thirty-two characters,
    /// whatever the size of the text it stands for. A migration row holds no
    /// hash.
    pub open spec fn full_size(self) -> bool {
        match self {
            EntryView::Hash { hash, .. } => hash.len() == 32,
            EntryView::Migration { .. } => true,
        }
    }
}

/// One guarded block of the script.
#[derive(Debug, PartialEq, Eq)]
pub struct Fragment {
    /// The stage the block belongs to.
    pub stage: Stage,
    /// How the source artifact is named in comments and notices.
    pub label: String,
    /// The ledger row that gates the body: the body runs unless the ledger
    /// holds it.
    pub guard: Entry,
    /// The artifact's text, verbatim.
    pub body: String,
    /// Whether running the body is recorded in the ledger.
    pub record: bool,
}

/// What a `Fragment` is in contracts.
pub struct FragmentView {
    pub stage: Stage,
    pub label: Seq<char>,
    pub guard: EntryView,
    pub body: Seq<char>,
    pub record: bool,
}

impl View for Fragment {
    type V = FragmentView;

    open spec fn view(&self) -> FragmentView {
        FragmentView {
            stage: self.stage,
            label: self.label@,
            guard: self.guard@,
            body: self.body@,
            record: self.record,
        }
    }
}

/// The views of a sequence of fragments, in order.
pub open spec fn fragment_views(fragments: Seq<Fragment>) -> Seq<FragmentView> {
    fragments.map_values(|f: Fragment| f@)
}

/// Every hash that gates one of the fragments is a digest written out in
/// full.
pub open spec fn guards_full_size(fragments: Seq<FragmentView>) -> bool {
    forall|i: int| 0 <= i < fragments.len() ==> (#[trigger] fragments[i]).guard.full_size()
}

/// The fragment of one function, trigger or view file found in `dir`.
pub open spec fn object_fragment(
    dir: Seq<char>,
    category: Category,
    record: bool,
    file: FileView,
) -> FragmentView {
    FragmentView {
        stage: object_stage(category, record),
        label: dir + "/"@ + stem(file.file_name),
        guard: EntryView::Hash {
            category,
            name: stem(file.file_name),
            hash: content_hash(file.content),
        },
        body: file.content,
        record,
    }
}

/// The fragment of one migration file. Whether it ran is recorded under the
/// file's stem; its content plays no part in its guard.
pub open spec fn migration_fragment(file: FileView) -> FragmentView {
    FragmentView {
        stage: if file.file_name == bootstrap_file_name() {
            Stage::Bootstrap
        } else {
            Stage::Migrations
        },
        label: file.file_name,
        guard: EntryView::Migration { name: stem(file.file_name) },
        body: file.content,
        record: true,
    }
}

/// The fragments of one directory pass: one for each artifact file, in
/// ascending order of file name.
pub open spec fn directory_fragments(
    dir: Seq<char>,
    category: Category,
    record: bool,
    files: Seq<FileView>,
) -> Seq<FragmentView> {
    sorted_sql_files(files).map_values(|f: FileView| object_fragment(dir, category, record, f))
}

/// The migration fragments of one kind, the bootstrap migration or all the
/// others, in ascending order of file name.
pub open spec fn migration_fragments(files: Seq<FileView>, bootstrap: bool) -> Seq<FragmentView> {
    sorted_sql_files(files).filter(
        |f: FileView| (f.file_name == bootstrap_file_name()) == bootstrap,
    ).map_values(|f: FileView| migration_fragment(f))
}

/// The path of a category's directory below the root.
pub open spec fn directory_path(root: Seq<char>, category: Category) -> Seq<char> {
    root + "/"@ + category.folder()
}

/// The fragments of a whole artifact tree, stage by stage: the bootstrap
/// migration, functions and triggers without recording, the other
/// migrations, views, then functions and triggers again with recording.
pub open spec fn plan(tree: TreeView) -> Seq<FragmentView> {
    migration_fragments(tree.migrations, true) + directory_fragments(
        directory_path(tree.root, Category::Function),
        Category::Function,
        false,
        tree.functions,
    ) + directory_fragments(
        directory_path(tree.root, Category::Trigger),
        Category::Trigger,
        false,
        tree.triggers,
    ) + migration_fragments(tree.migrations, false) + directory_fragments(
        directory_path(tree.root, Category::View),
        Category::View,
        true,
        tree.views,
    ) + directory_fragments(
        directory_path(tree.root, Category::Function),
        Category::Function,
        true,
        tree.functions,
    ) + directory_fragments(
        directory_path(tree.root, Category::Trigger),
        Category::Trigger,
        true,
        tree.triggers,
    )
}

/// What a hash-gated block appends to its body when it records: the upsert of
/// the hash and the notice that the artifact was applied.
pub open spec fn hash_record_text(table: Seq<char>, name: Seq<char>, hash: Seq<char>, label: Seq<char>) -> Seq<char> {
    "    INSERT INTO "@ + table + " (name, hash) VALUES ('"@ + name + "', '"@ + hash
        + "') ON CONFLICT (name) DO UPDATE SET hash = EXCLUDED.hash, applied_at = CURRENT_TIMESTAMP;\n"@
        + "    RAISE NOTICE '✅ Applied "@ + label + "';\n"@
}

/// The text of a hash-gated block.
pub open spec fn hash_block_text(
    table: Seq<char>,
    name: Seq<char>,
    hash: Seq<char>,
    label: Seq<char>,
    body: Seq<char>,
    record: bool,
) -> Seq<char> {
    "-- RUN "@ + label + " --\n"@ + "IF (SELECT hash FROM "@ + table + " WHERE name = '"@ + name
        + "') IS DISTINCT FROM '"@ + hash + "' THEN\n"@ + body + "\n"@ + (if record {
        hash_record_text(table, name, hash, label)
    } else {
        Seq::empty()
    }) + "ELSE\n"@ + "    RAISE NOTICE '- Skipped "@ + label + " (no changes)';\n"@ + "END IF;\n"@
        + "-- DONE "@ + label + " --\n"@
}

/// The text of an existence-gated block.
pub open spec fn migration_block_text(name: Seq<char>, label: Seq<char>, body: Seq<char>) -> Seq<
    char,
> {
    "-- RUN "@ + label + " --\n"@ + "IF NOT EXISTS (SELECT 1 FROM pgm_migration WHERE name = '"@
        + name + "') THEN\n"@ + body + "\n"@ + "INSERT INTO pgm_migration (name) VALUES ('"@ + name
        + "');\n"@ + "RAISE NOTICE '✅ Applied migration: "@ + name + "';\n"@ + "ELSE\n"@
        + "RAISE NOTICE '- Skipped migration: "@ + name + " (already applied)';\n"@ + "END IF;\n"@
        + "-- DONE "@ + label + " --\n"@
}

/// The text of one fragment.
pub open spec fn fragment_text(f: FragmentView) -> Seq<char> {
    match f.guard {
        EntryView::Hash { category, name, hash } => hash_block_text(
            category.table(),
            name,
            hash,
            f.label,
            f.body,
            f.record,
        ),
        EntryView::Migration { name } => migration_block_text(name, f.label, f.body),
    }
}

/// The texts of the fragments, one after the other.
pub open spec fn fragments_text(fragments: Seq<FragmentView>) -> Seq<char>
    decreases fragments.len(),
{
    if fragments.len() == 0 {
        Seq::empty()
    } else {
        fragments_text(fragments.drop_last()) + fragment_text(fragments.last())
    }
}

/// The fragments that run before (`checked` false) or after (`checked` true)
/// function bodies are checked again, in order.
pub open spec fn half(fragments: Seq<FragmentView>, checked: bool) -> Seq<FragmentView> {
    fragments.filter(|f: FragmentView| f.stage.checked() == checked)
}

/// The text of a whole script before any line is removed: one block that
/// switches the checking of function bodies off, creates the tracking
/// tables, runs the fragments of the first five stages, switches the checking
/// on again and runs the fragments of the last two.
pub open spec fn script_text(fragments: Seq<FragmentView>) -> Seq<char> {
    "DO $pgm$ BEGIN\n"@ + "SET LOCAL check_function_bodies = false;\n"@
        + "SET LOCAL client_min_messages = notice;\n"@ + TABLES_SQL@ + fragments_text(
        half(fragments, false),
    ) + "SET LOCAL check_function_bodies = true;\n"@ + fragments_text(half(fragments, true))
        + "END $pgm$;\n"@
}

/// The final text of a script: empty lines are always removed; with `minify`,
/// comment lines are removed from what is left.
pub open spec fn finished_text(raw: Seq<char>, minify: bool) -> Seq<char> {
    let dense = filter_lines(raw, LineRule::DropEmpty);
    if minify {
        filter_lines(dense, LineRule::DropComments)
    } else {
        dense
    }
}

/// The compiled script of an artifact tree.
pub open spec fn build_text(tree: TreeView, minify: bool) -> Seq<char> {
    finished_text(script_text(plan(tree)), minify)
}

fn render_hash_record(table: &str, name: &str, hash: &str, label: &str) -> (out: String)
    ensures
        out@ == hash_record_text(table@, name@, hash@, label@),
{
    let mut out = "    INSERT INTO ".to_owned();
    out.append(table);
    out.append(" (name, hash) VALUES ('");
    out.append(name);
    out.append("', '");
    out.append(hash);
    out.append(
        "') ON CONFLICT (name) DO UPDATE SET hash = EXCLUDED.hash, applied_at = CURRENT_TIMESTAMP;\n",
    );
    out.append("    RAISE NOTICE '✅ Applied ");
    out.append(label);
    out.append("';\n");
    out
}

fn render_hash_block(
    table: &str,
    name: &str,
    hash: &str,
    label: &str,
    body: &str,
    record: bool,
) -> (out: String)
    ensures
        out@ == hash_block_text(table@, name@, hash@, label@, body@, record),
{
    let recorded = if record {
        render_hash_record(table, name, hash, label)
    } else {
        String::new()
    };
    let mut out = "-- RUN ".to_owned();
    out.append(label);
    out.append(" --\n");
    out.append("IF (SELECT hash FROM ");
    out.append(table);
    out.append(" WHERE name = '");
    out.append(name);
    out.append("') IS DISTINCT FROM '");
    out.append(hash);
    out.append("' THEN\n");
    out.append(body);
    out.append("\n");
    out.append(recorded.as_str());
    out.append("ELSE\n");
    out.append("    RAISE NOTICE '- Skipped ");
    out.append(label);
    out.append(" (no changes)';\n");
    out.append("END IF;\n");
    out.append("-- DONE ");
    out.append(label);
    out.append(" --\n");
    out
}

fn render_migration_block(name: &str, label: &str, body: &str) -> (out: String)
    ensures
        out@ == migration_block_text(name@, label@, body@),
{
    let mut out = "-- RUN ".to_owned();
    out.append(label);
    out.append(" --\n");
    out.append("IF NOT EXISTS (SELECT 1 FROM pgm_migration WHERE name = '");
    out.append(name);
    out.append("') THEN\n");
    out.append(body);
    out.append("\n");
    out.append("INSERT INTO pgm_migration (name) VALUES ('");
    out.append(name);
    out.append("');\n");
    out.append("RAISE NOTICE '✅ Applied migration: ");
    out.append(name);
    out.append("';\n");
    out.append("ELSE\n");
    out.append("RAISE NOTICE '- Skipped migration: ");
    out.append(name);
    out.append(" (already applied)';\n");
    out.append("END IF;\n");
    out.append("-- DONE ");
    out.append(label);
    out.append(" --\n");
    out
}

/// Writes one fragment as text.
pub fn render_fragment(fragment: &Fragment) -> (out: String)
    ensures
        out@ == fragment_text(fragment@),
{
    match &fragment.guard {
        Entry::Hash { category, name, hash } => render_hash_block(
            category.table_name(),
            name.as_str(),
            hash.as_str(),
            fragment.label.as_str(),
            fragment.body.as_str(),
            fragment.record,
        ),
        Entry::Migration { name } => render_migration_block(
            name.as_str(),
            fragment.label.as_str(),
            fragment.body.as_str(),
        ),
    }
}

/// Writes fragments as text, one after the other.
pub fn render_fragments(fragments: &Vec<Fragment>) -> (out: String)
    ensures
        out@ == fragments_text(fragment_views(fragments@)),
{
    let mut out = String::new();
    let mut i: usize = 0;
    assert(fragment_views(fragments@).take(0) =~= Seq::empty());
    while i < fragments.len()
        invariant
            i <= fragments.len(),
            out@ == fragments_text(fragment_views(fragments@).take(i as int)),
        decreases fragments.len() - i,
    {
        let text = render_fragment(&fragments[i]);
        out.append(text.as_str());
        proof {
            let next = fragment_views(fragments@).take(i + 1);
            assert(next.drop_last() =~= fragment_views(fragments@).take(i as int));
            assert(next.last() == fragments@[i as int]@);
        }
        i += 1;
    }
    assert(fragment_views(fragments@).take(fragments.len() as int) =~= fragment_views(
        fragments@,
    ));
    out
}

/// Writes the fragments of one half of the script, those that run before or
/// those that run after function bodies are checked again.
fn render_half(fragments: &Vec<Fragment>, checked: bool) -> (out: String)
    ensures
        out@ == fragments_text(half(fragment_views(fragments@), checked)),
{
    let ghost all = fragment_views(fragments@);
    let ghost pred = |f: FragmentView| f.stage.checked() == checked;
    let mut out = String::new();
    let mut i: usize = 0;
    proof {
        assert(all.take(0) =~= Seq::empty());
        reveal(Seq::filter);
        assert(all.take(0).filter(pred) =~= Seq::empty());
    }
    while i < fragments.len()
        invariant
            i <= fragments.len(),
            all == fragment_views(fragments@),
            pred == (|f: FragmentView| f.stage.checked() == checked),
            out@ == fragments_text(all.take(i as int).filter(pred)),
        decreases fragments.len() - i,
    {
        proof {
            let next = all.take(i + 1);
            assert(next.drop_last() =~= all.take(i as int));
            assert(next.last() == fragments@[i as int]@);
            reveal(Seq::filter);
            if pred(next.last()) {
                assert(next.filter(pred).drop_last() =~= all.take(i as int).filter(pred));
            }
        }
        if fragments[i].stage.is_checked() == checked {
            let text = render_fragment(&fragments[i]);
            out.append(text.as_str());
        }
        i += 1;
    }
    assert(all.take(fragments.len() as int) =~= all);
    out
}

/// Writes a whole script, before any line is removed.
pub fn render_script(fragments: &Vec<Fragment>) -> (out: String)
    ensures
        out@ == script_text(fragment_views(fragments@)),
{
    let first = render_half(fragments, false);
    let second = render_half(fragments, true);
    let mut out = "DO $pgm$ BEGIN\n".to_owned();
    out.append("SET LOCAL check_function_bodies = false;\n");
    out.append("SET LOCAL client_min_messages = notice;\n");
    out.append(TABLES_SQL);
    out.append(first.as_str());
    out.append("SET LOCAL check_function_bodies = true;\n");
    out.append(second.as_str());
    out.append("END $pgm$;\n");
    out
}

/// Removes the empty lines of a script and, with `minify`, its comment lines.
pub fn finish_script(raw: &str, minify: bool) -> (out: String)
    ensures
        out@ == finished_text(raw@, minify),
{
    let dense = filter_text_lines(raw, LineRule::DropEmpty);
    if minify {
        filter_text_lines(dense.as_str(), LineRule::DropComments)
    } else {
        dense
    }
}

/// Builds the fragment of one function, trigger or view file found in `dir`.
pub fn compile_object(dir: &str, category: Category, record: bool, file: &SourceFile) -> (fragment:
    Fragment)
    ensures
        fragment@ == object_fragment(dir@, category, record, file@),
        fragment@.guard.full_size(),
{
    let name = crate::artifact::file_stem(file.file_name.as_str());
    let mut label = dir.to_owned();
    label.append("/");
    label.append(name.as_str());
    Fragment {
        stage: stage_of_object(category, record),
        label,
        guard: Entry::Hash { category, name, hash: hash_content(file.content.as_str()) },
        body: file.content.clone(),
        record,
    }
}

/// Builds the fragment of one migration file.
pub fn compile_migration(file: &SourceFile) -> (fragment: Fragment)
    ensures
        fragment@ == migration_fragment(file@),
{
    let stage = if text_eq(file.file_name.as_str(), INITIAL_MIGRATION_FILE_NAME) {
        Stage::Bootstrap
    } else {
        Stage::Migrations
    };
    Fragment {
        stage,
        label: file.file_name.clone(),
        guard: Entry::Migration { name: crate::artifact::file_stem(file.file_name.as_str()) },
        body: file.content.clone(),
        record: true,
    }
}

/// Builds the fragments of one directory pass.
pub fn compile_directory(
    dir: &str,
    category: Category,
    record: bool,
    files: &Vec<SourceFile>,
) -> (fragments: Vec<Fragment>)
    ensures
        fragment_views(fragments@) == directory_fragments(
            dir@,
            category,
            record,
            file_views(files@),
        ),
        guards_full_size(fragment_views(fragments@)),
{
    let sorted = sort_sql_files(files);
    let ghost make = |f: FileView| object_fragment(dir@, category, record, f);
    let ghost all = file_views(sorted@);
    let mut fragments: Vec<Fragment> = Vec::new();
    let mut i: usize = 0;
    assert(fragment_views(fragments@) =~= all.take(0).map_values(make));
    while i < sorted.len()
        invariant
            i <= sorted.len(),
            all == file_views(sorted@),
            make == (|f: FileView| object_fragment(dir@, category, record, f)),
            fragment_views(fragments@) == all.take(i as int).map_values(make),
            guards_full_size(fragment_views(fragments@)),
        decreases sorted.len() - i,
    {
        let ghost before = fragment_views(fragments@);
        let fragment = compile_object(dir, category, record, &sorted[i]);
        fragments.push(fragment);
        proof {
            assert(fragment_views(fragments@) =~= before.push(fragment@));
            assert(all[i as int] == sorted@[i as int]@);
            assert(all.take(i + 1) =~= all.take(i as int).push(all[i as int]));
            assert(fragment_views(fragments@) =~= before.push(make(all[i as int])));
            assert(all.take(i as int).push(all[i as int]).map_values(make) =~= before.push(
                make(all[i as int]),
            ));
        }
        i += 1;
    }
    assert(all.take(sorted.len() as int) =~= all);
    fragments
}

/// Builds the migration fragments of one kind: the bootstrap migration
/// (`bootstrap` true) or all the others.
pub fn compile_migrations(files: &Vec<SourceFile>, bootstrap: bool) -> (fragments: Vec<Fragment>)
    ensures
        fragment_views(fragments@) == migration_fragments(file_views(files@), bootstrap),
        guards_full_size(fragment_views(fragments@)),
{
    let sorted = sort_sql_files(files);
    let ghost pred = |f: FileView| (f.file_name == bootstrap_file_name()) == bootstrap;
    let ghost make = |f: FileView| migration_fragment(f);
    let ghost all = file_views(sorted@);
    let mut fragments: Vec<Fragment> = Vec::new();
    let mut i: usize = 0;
    proof {
        reveal(Seq::filter);
        assert(all.take(0).filter(pred) =~= Seq::empty());
        assert(fragment_views(fragments@) =~= all.take(0).filter(pred).map_values(make));
    }
    while i < sorted.len()
        invariant
            i <= sorted.len(),
            all == file_views(sorted@),
            pred == (|f: FileView| (f.file_name == bootstrap_file_name()) == bootstrap),
            make == (|f: FileView| migration_fragment(f)),
            fragment_views(fragments@) == all.take(i as int).filter(pred).map_values(make),
            guards_full_size(fragment_views(fragments@)),
        decreases sorted.len() - i,
    {
        let ghost before = all.take(i as int).filter(pred);
        proof {
            let next = all.take(i + 1);
            assert(next.drop_last() =~= all.take(i as int));
            assert(next.last() == sorted@[i as int]@);
            reveal(Seq::filter);
            assert(next.filter(pred) == if pred(next.last()) {
                before.push(next.last())
            } else {
                before
            });
        }
        let is_bootstrap = text_eq(sorted[i].file_name.as_str(), INITIAL_MIGRATION_FILE_NAME);
        if is_bootstrap == bootstrap {
            let ghost views_before = fragment_views(fragments@);
            let fragment = compile_migration(&sorted[i]);
            fragments.push(fragment);
            proof {
                let file = sorted@[i as int]@;
                assert(fragment_views(fragments@) =~= views_before.push(make(file)));
                assert(before.push(file).map_values(make) =~= views_before.push(make(file)));
            }
        }
        i += 1;
    }
    assert(all.take(sorted.len() as int) =~= all);
    fragments
}

/// The path of a category's directory below `root`.
pub fn directory_of(root: &str, category: Category) -> (dir: String)
    ensures
        dir@ == directory_path(root@, category),
{
    let mut dir = root.to_owned();
    dir.append("/");
    dir.append(category.folder_name());
    dir
}

/// Builds the fragments of a whole artifact tree, in the order of the stages.
pub fn plan_script(tree: &ArtifactTree) -> (fragments: Vec<Fragment>)
    ensures
        fragment_views(fragments@) == plan(tree@),
        guards_full_size(fragment_views(fragments@)),
{
    let functions_dir = directory_of(tree.root.as_str(), Category::Function);
    let triggers_dir = directory_of(tree.root.as_str(), Category::Trigger);
    let views_dir = directory_of(tree.root.as_str(), Category::View);
    let mut fragments = compile_migrations(&tree.migrations, true);
    let mut functions_first = compile_directory(
        functions_dir.as_str(),
        Category::Function,
        false,
        &tree.functions,
    );
    let mut triggers_first = compile_directory(
        triggers_dir.as_str(),
        Category::Trigger,
        false,
        &tree.triggers,
    );
    let mut migrations = compile_migrations(&tree.migrations, false);
    let mut views = compile_directory(views_dir.as_str(), Category::View, true, &tree.views);
    let mut functions_second = compile_directory(
        functions_dir.as_str(),
        Category::Function,
        true,
        &tree.functions,
    );
    let mut triggers_second = compile_directory(
        triggers_dir.as_str(),
        Category::Trigger,
        true,
        &tree.triggers,
    );
    let ghost a = fragment_views(fragments@);
    let ghost b = fragment_views(functions_first@);
    let ghost c = fragment_views(triggers_first@);
    let ghost d = fragment_views(migrations@);
    let ghost e = fragment_views(views@);
    let ghost f = fragment_views(functions_second@);
    let ghost g = fragment_views(triggers_second@);
    fragments.append(&mut functions_first);
    assert(fragment_views(fragments@) =~= a + b);
    fragments.append(&mut triggers_first);
    assert(fragment_views(fragments@) =~= a + b + c);
    fragments.append(&mut migrations);
    assert(fragment_views(fragments@) =~= a + b + c + d);
    fragments.append(&mut views);
    assert(fragment_views(fragments@) =~= a + b + c + d + e);
    fragments.append(&mut functions_second);
    assert(fragment_views(fragments@) =~= a + b + c + d + e + f);
    fragments.append(&mut triggers_second);
    assert(fragment_views(fragments@) =~= a + b + c + d + e + f + g);
    fragments
}

/// Compiles an artifact tree into one script that can be run any number of
/// times. With `minify` the script carries no comment lines.
pub fn build(tree: &ArtifactTree, minify: bool) -> (sql: String)
    ensures
        sql@ == build_text(tree@, minify),
{
    let fragments = plan_script(tree);
    let raw = render_script(&fragments);
    finish_script(raw.as_str(), minify)
}

/// Compiles one directory pass into text: a hash-gated block for each
/// artifact file of `files`, in ascending order of file name.
pub fn process_directory(
    full_dir_path: &str,
    files: &Vec<SourceFile>,
    category: Category,
    update_table_hash: bool,
) -> (sql: String)
    ensures
        sql@ == fragments_text(
            directory_fragments(full_dir_path@, category, update_table_hash, file_views(files@)),
        ),
{
    let fragments = compile_directory(full_dir_path, category, update_table_hash, files);
    render_fragments(&fragments)
}

/// Compiles one migration file into text: an existence-gated block.
pub fn process_migration(file: &SourceFile) -> (sql: String)
    ensures
        sql@ == fragment_text(migration_fragment(file@)),
{
    let fragment = compile_migration(file);
    render_fragment(&fragment)
}

} // verus!
