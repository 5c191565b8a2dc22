//! Laws of the compiler, stated over the ledger: what a compiled script does
//! to the bookkeeping, whatever the artifacts are.

use vstd::prelude::*;
use crate::artifact::{
    bootstrap_file_name, insert_by_name, is_sql_file, lex_le, sorted_sql_files, sql_suffix, stem,
    Category, FileView, TreeView,
};
use crate::fake::{
    directory_entries, fake_plan, fake_text, migration_entries, migration_entry, object_entry,
};
use crate::hash::content_hash;
use crate::ledger::{
    after, consistent, guards, lemma_held_script_is_idle, lemma_marked_rows_are_held,
    lemma_recorded_rows_are_held, mark, run, runs, same_row, Ledger,
};
use crate::order::{distinct_names, law_listing_order_is_immaterial, lemma_sorted_members};
use crate::script::{
    build_text, directory_fragments, directory_path, migration_fragment, migration_fragments,
    object_fragment, plan, EntryView, FragmentView, Stage,
};

verus! {

/// A tree as a file system holds it: no directory has two files of one name.
pub open spec fn well_formed(tree: TreeView) -> bool {
    &&& distinct_names(tree.migrations)
    &&& distinct_names(tree.functions)
    &&& distinct_names(tree.triggers)
    &&& distinct_names(tree.views)
}

/// Two artifact files recorded under the same name have the same file name.
pub proof fn lemma_stem_names_the_file(a: Seq<char>, b: Seq<char>)
    requires
        is_sql_file(a),
        is_sql_file(b),
        stem(a) == stem(b),
    ensures
        a == b,
{
    let k = sql_suffix().len() as int;
    assert(a =~= stem(a) + a.subrange(a.len() - k, a.len() as int));
    assert(b =~= stem(b) + b.subrange(b.len() - k, b.len() as int));
}

/// A row that records an artifact file of the tree as it stands.
pub open spec fn is_row(tree: TreeView, entry: EntryView) -> bool {
    match entry {
        EntryView::Hash { category, .. } => exists|x: FileView|
            sorted_sql_files(tree.directory(category)).contains(x) && entry == #[trigger] object_entry(
                category,
                x,
            ),
        EntryView::Migration { .. } => exists|x: FileView|
            sorted_sql_files(tree.migrations).contains(x) && entry == #[trigger] migration_entry(x),
    }
}

/// A file of a directory's compiled order makes a row of the tree.
proof fn lemma_object_row(tree: TreeView, category: Category, k: int)
    requires
        0 <= k < sorted_sql_files(tree.directory(category)).len(),
    ensures
        is_row(tree, object_entry(category, sorted_sql_files(tree.directory(category))[k])),
        directory_entries(category, tree.directory(category))[k] == object_entry(
            category,
            sorted_sql_files(tree.directory(category))[k],
        ),
{
    let s = sorted_sql_files(tree.directory(category));
    assert(s.contains(s[k]));
}

/// A file of the migrations' compiled order makes a row of the tree.
proof fn lemma_migration_row(tree: TreeView, k: int)
    requires
        0 <= k < sorted_sql_files(tree.migrations).len(),
    ensures
        is_row(tree, migration_entry(sorted_sql_files(tree.migrations)[k])),
        migration_entries(tree.migrations)[k] == migration_entry(
            sorted_sql_files(tree.migrations)[k],
        ),
{
    let s = sorted_sql_files(tree.migrations);
    assert(s.contains(s[k]));
}

/// The bookkeeping-only script writes rows of the tree and nothing else.
pub proof fn lemma_fake_plan_writes_rows(tree: TreeView, i: int)
    requires
        0 <= i < fake_plan(tree).len(),
    ensures
        is_row(tree, fake_plan(tree)[i]),
{
    let a = directory_entries(Category::Function, tree.functions);
    let b = directory_entries(Category::Trigger, tree.triggers);
    let c = directory_entries(Category::View, tree.views);
    let d = migration_entries(tree.migrations);
    if i < a.len() {
        lemma_object_row(tree, Category::Function, i);
    } else if i < a.len() + b.len() {
        lemma_object_row(tree, Category::Trigger, i - a.len());
    } else if i < a.len() + b.len() + c.len() {
        lemma_object_row(tree, Category::View, i - a.len() - b.len());
    } else {
        lemma_migration_row(tree, i - a.len() - b.len() - c.len());
    }
}

/// The bookkeeping-only script writes every row of the tree.
pub proof fn lemma_fake_plan_writes_every_row(tree: TreeView, entry: EntryView) -> (i: int)
    requires
        is_row(tree, entry),
    ensures
        0 <= i < fake_plan(tree).len(),
        fake_plan(tree)[i] == entry,
{
    let a = directory_entries(Category::Function, tree.functions);
    let b = directory_entries(Category::Trigger, tree.triggers);
    let c = directory_entries(Category::View, tree.views);
    let d = migration_entries(tree.migrations);
    match entry {
        EntryView::Hash { category, .. } => {
            let s = sorted_sql_files(tree.directory(category));
            let x = choose|x: FileView|
                s.contains(x) && entry == #[trigger] object_entry(category, x);
            let k = choose|k: int| 0 <= k < s.len() && s[k] == x;
            lemma_object_row(tree, category, k);
            match category {
                Category::Function => k,
                Category::Trigger => a.len() + k,
                Category::View => a.len() + b.len() + k,
            }
        },
        EntryView::Migration { .. } => {
            let s = sorted_sql_files(tree.migrations);
            let x = choose|x: FileView| s.contains(x) && entry == #[trigger] migration_entry(x);
            let k = choose|k: int| 0 <= k < s.len() && s[k] == x;
            lemma_migration_row(tree, k);
            a.len() + b.len() + c.len() + k
        },
    }
}

/// In a well-formed tree two rows that stand in the same place are the same
/// row.
pub proof fn lemma_rows_agree(tree: TreeView, e1: EntryView, e2: EntryView)
    requires
        well_formed(tree),
        is_row(tree, e1),
        is_row(tree, e2),
        same_row(e1, e2),
    ensures
        e1 == e2,
{
    match e1 {
        EntryView::Hash { category, .. } => {
            let files = tree.directory(category);
            let s = sorted_sql_files(files);
            let x1 = choose|x: FileView| s.contains(x) && e1 == #[trigger] object_entry(category, x);
            let x2 = choose|x: FileView| s.contains(x) && e2 == #[trigger] object_entry(category, x);
            lemma_sorted_members(files, x1);
            lemma_sorted_members(files, x2);
            lemma_stem_names_the_file(x1.file_name, x2.file_name);
            let i = choose|i: int| 0 <= i < files.len() && files[i] == x1;
            let j = choose|j: int| 0 <= j < files.len() && files[j] == x2;
            assert(i == j) by {
                if i < j {
                    assert(files[i].file_name != files[j].file_name);
                }
                if j < i {
                    assert(files[j].file_name != files[i].file_name);
                }
            }
        },
        EntryView::Migration { .. } => {},
    }
}

/// The rows that the bookkeeping-only script writes for a well-formed tree do
/// not contradict each other.
pub proof fn lemma_fake_plan_is_consistent(tree: TreeView)
    requires
        well_formed(tree),
    ensures
        consistent(fake_plan(tree)),
{
    let rows = fake_plan(tree);
    assert forall|i: int, j: int|
        0 <= i < rows.len() && 0 <= j < rows.len() && same_row(
            #[trigger] rows[i],
            #[trigger] rows[j],
        ) implies rows[i] == rows[j] by {
        lemma_fake_plan_writes_rows(tree, i);
        lemma_fake_plan_writes_rows(tree, j);
        lemma_rows_agree(tree, rows[i], rows[j]);
    }
}

/// Hash sensitivity. Against a ledger that records an artifact with the hash
/// of one text, the artifact's fragment is skipped while its text is that
/// text, and runs as soon as its text has another hash.
pub proof fn law_changed_text_runs(
    dir: Seq<char>,
    category: Category,
    record: bool,
    file_name: Seq<char>,
    applied: Seq<char>,
    present: Seq<char>,
    ledger: Ledger,
)
    requires
        ledger.holds(object_entry(category, FileView { file_name, content: applied })),
    ensures
        !runs(
            object_fragment(dir, category, record, FileView { file_name, content: applied }),
            ledger,
        ),
        content_hash(present) != content_hash(applied) ==> runs(
            object_fragment(dir, category, record, FileView { file_name, content: present }),
            ledger,
        ),
{
}

/// Migrations are append-only. A migration's guard is made of its file name
/// alone: whatever its text is now, it is skipped once the ledger holds its
/// name, and then leaves the ledger as it is.
pub proof fn law_migration_text_is_immaterial(
    file_name: Seq<char>,
    applied: Seq<char>,
    present: Seq<char>,
    ledger: Ledger,
)
    ensures
        migration_fragment(FileView { file_name, content: present }).guard == migration_fragment(
            FileView { file_name, content: applied },
        ).guard,
        runs(migration_fragment(FileView { file_name, content: present }), ledger) == runs(
            migration_fragment(FileView { file_name, content: applied }),
            ledger,
        ),
        ledger.holds(migration_entry(FileView { file_name, content: applied })) ==> !runs(
            migration_fragment(FileView { file_name, content: present }),
            ledger,
        ) && after(ledger, migration_fragment(FileView { file_name, content: present }))
            == ledger,
{
}

/// The migration files of one kind, the bootstrap migration or the others, in
/// compiled order.
pub open spec fn selected(files: Seq<FileView>, bootstrap: bool) -> Seq<FileView> {
    sorted_sql_files(files).filter(
        |f: FileView| (f.file_name == bootstrap_file_name()) == bootstrap,
    )
}

/// The seven parts of a plan, in order.
pub open spec fn parts(tree: TreeView) -> Seq<Seq<FragmentView>> {
    seq![
        migration_fragments(tree.migrations, true),
        directory_fragments(
            directory_path(tree.root, Category::Function),
            Category::Function,
            false,
            tree.functions,
        ),
        directory_fragments(
            directory_path(tree.root, Category::Trigger),
            Category::Trigger,
            false,
            tree.triggers,
        ),
        migration_fragments(tree.migrations, false),
        directory_fragments(
            directory_path(tree.root, Category::View),
            Category::View,
            true,
            tree.views,
        ),
        directory_fragments(
            directory_path(tree.root, Category::Function),
            Category::Function,
            true,
            tree.functions,
        ),
        directory_fragments(
            directory_path(tree.root, Category::Trigger),
            Category::Trigger,
            true,
            tree.triggers,
        ),
    ]
}

/// The index in the plan at which part `k` begins.
pub open spec fn part_start(tree: TreeView, k: int) -> int
    decreases k,
{
    if k <= 0 {
        0
    } else {
        part_start(tree, k - 1) + parts(tree)[k - 1].len()
    }
}

/// The plan is its seven parts, one after the other.
pub proof fn lemma_plan_parts(tree: TreeView, k: int, i: int)
    requires
        0 <= k < 7,
        0 <= i < parts(tree)[k].len(),
    ensures
        0 <= part_start(tree, k) + i < plan(tree).len(),
        plan(tree)[part_start(tree, k) + i] == parts(tree)[k][i],
{
    let p = parts(tree);
    reveal_with_fuel(part_start, 8);
    assert(plan(tree) == p[0] + p[1] + p[2] + p[3] + p[4] + p[5] + p[6]);
}

/// Every index of the plan lies in one of its parts.
pub proof fn lemma_plan_index(tree: TreeView, j: int) -> (k: int)
    requires
        0 <= j < plan(tree).len(),
    ensures
        0 <= k < 7,
        part_start(tree, k) <= j < part_start(tree, k) + parts(tree)[k].len(),
        plan(tree)[j] == parts(tree)[k][j - part_start(tree, k)],
{
    let p = parts(tree);
    reveal_with_fuel(part_start, 8);
    assert(plan(tree) == p[0] + p[1] + p[2] + p[3] + p[4] + p[5] + p[6]);
    let k: int = if j < part_start(tree, 1) {
        0
    } else if j < part_start(tree, 2) {
        1
    } else if j < part_start(tree, 3) {
        2
    } else if j < part_start(tree, 4) {
        3
    } else if j < part_start(tree, 5) {
        4
    } else if j < part_start(tree, 6) {
        5
    } else {
        6
    };
    k
}

/// The category and the recording of the parts that come from a directory.
pub open spec fn part_category(k: int) -> Category {
    if k == 1 || k == 5 {
        Category::Function
    } else if k == 2 || k == 6 {
        Category::Trigger
    } else {
        Category::View
    }
}

/// What stands at an index of a part that comes from a directory.
proof fn lemma_directory_part(tree: TreeView, k: int, i: int)
    requires
        k == 1 || k == 2 || k == 4 || k == 5 || k == 6,
        0 <= i < parts(tree)[k].len(),
    ensures
        parts(tree)[k].len() == sorted_sql_files(tree.directory(part_category(k))).len(),
        parts(tree)[k][i] == object_fragment(
            directory_path(tree.root, part_category(k)),
            part_category(k),
            k >= 4,
            sorted_sql_files(tree.directory(part_category(k)))[i],
        ),
{
}

/// What stands at an index of a part that comes from the migrations.
proof fn lemma_migration_part(tree: TreeView, k: int, i: int)
    requires
        k == 0 || k == 3,
        0 <= i < parts(tree)[k].len(),
    ensures
        parts(tree)[k].len() == selected(tree.migrations, k == 0).len(),
        parts(tree)[k][i] == migration_fragment(selected(tree.migrations, k == 0)[i]),
        sorted_sql_files(tree.migrations).contains(selected(tree.migrations, k == 0)[i]),
        (selected(tree.migrations, k == 0)[i].file_name == bootstrap_file_name()) == (k == 0),
{
    let s = sorted_sql_files(tree.migrations);
    let pred = |f: FileView| (f.file_name == bootstrap_file_name()) == (k == 0);
    let chosen = selected(tree.migrations, k == 0);
    assert(chosen == s.filter(pred));
    assert(parts(tree)[k] == chosen.map_values(|f: FileView| migration_fragment(f)));
    s.lemma_filter_pred(pred, i);
    assert(chosen.contains(chosen[i]));
    s.lemma_filter_contains_rev(pred, chosen[i]);
}

/// Every fragment of a plan is gated by a row of the tree.
pub proof fn lemma_guards_are_rows(tree: TreeView, j: int)
    requires
        0 <= j < plan(tree).len(),
    ensures
        is_row(tree, plan(tree)[j].guard),
{
    let k = lemma_plan_index(tree, j);
    let i = j - part_start(tree, k);
    let guard = plan(tree)[j].guard;
    if k == 0 || k == 3 {
        lemma_migration_part(tree, k, i);
        let x = selected(tree.migrations, k == 0)[i];
        assert(guard == migration_entry(x));
    } else {
        lemma_directory_part(tree, k, i);
        let s = sorted_sql_files(tree.directory(part_category(k)));
        assert(s.contains(s[i]));
        assert(guard == object_entry(part_category(k), s[i]));
    }
}

/// Every row of the tree is the guard of a fragment that records.
pub proof fn lemma_rows_are_recorded(tree: TreeView, entry: EntryView) -> (j: int)
    requires
        is_row(tree, entry),
    ensures
        0 <= j < plan(tree).len(),
        plan(tree)[j].record,
        plan(tree)[j].guard == entry,
{
    match entry {
        EntryView::Hash { category, .. } => {
            let s = sorted_sql_files(tree.directory(category));
            let x = choose|x: FileView|
                s.contains(x) && entry == #[trigger] object_entry(category, x);
            let i = choose|i: int| 0 <= i < s.len() && s[i] == x;
            let k: int = match category {
                Category::Function => 5,
                Category::Trigger => 6,
                Category::View => 4,
            };
            assert(parts(tree)[k].len() == s.len());
            lemma_directory_part(tree, k, i);
            lemma_plan_parts(tree, k, i);
            part_start(tree, k) + i
        },
        EntryView::Migration { .. } => {
            let s = sorted_sql_files(tree.migrations);
            let x = choose|x: FileView| s.contains(x) && entry == #[trigger] migration_entry(x);
            let m = choose|m: int| 0 <= m < s.len() && s[m] == x;
            let first = x.file_name == bootstrap_file_name();
            let k: int = if first {
                0
            } else {
                3
            };
            let pred = |f: FileView| (f.file_name == bootstrap_file_name()) == first;
            let chosen = selected(tree.migrations, first);
            assert(chosen == s.filter(pred));
            s.lemma_filter_contains(pred, m);
            let i = choose|i: int| 0 <= i < chosen.len() && chosen[i] == x;
            assert(parts(tree)[k] == chosen.map_values(|f: FileView| migration_fragment(f)));
            lemma_plan_parts(tree, k, i);
            part_start(tree, k) + i
        },
    }
}

/// The guards of a well-formed tree's plan do not contradict each other.
pub proof fn lemma_plan_is_consistent(tree: TreeView)
    requires
        well_formed(tree),
    ensures
        consistent(guards(plan(tree))),
{
    let g = guards(plan(tree));
    assert forall|i: int, j: int|
        0 <= i < g.len() && 0 <= j < g.len() && same_row(#[trigger] g[i], #[trigger] g[j]) implies g[i]
        == g[j] by {
        lemma_guards_are_rows(tree, i);
        lemma_guards_are_rows(tree, j);
        lemma_rows_agree(tree, g[i], g[j]);
    }
}

/// Idempotence. Once the script of a well-formed tree has run, against
/// whatever ledger, running the script of the unchanged tree again runs no
/// fragment and leaves the ledger as it is.
pub proof fn law_second_run_is_idle(tree: TreeView, ledger: Ledger)
    requires
        well_formed(tree),
    ensures
        forall|i: int|
            0 <= i < plan(tree).len() ==> !runs(
                #[trigger] plan(tree)[i],
                run(plan(tree), ledger),
            ),
        run(plan(tree), run(plan(tree), ledger)) == run(plan(tree), ledger),
{
    let script = plan(tree);
    let settled = run(script, ledger);
    lemma_plan_is_consistent(tree);
    assert forall|i: int| 0 <= i < script.len() implies settled.holds(
        #[trigger] script[i].guard,
    ) by {
        lemma_guards_are_rows(tree, i);
        let j = lemma_rows_are_recorded(tree, script[i].guard);
        lemma_recorded_rows_are_held(script, ledger, j);
    }
    lemma_held_script_is_idle(script, settled);
}

/// Fake-apply. The bookkeeping-only script of a well-formed tree, run against
/// whatever ledger, the empty one included, leaves a ledger that holds the
/// row of every artifact with the hash of its present text and the name of
/// every migration; the tree's script then runs no fragment.
pub proof fn law_fake_apply_marks_everything(tree: TreeView, ledger: Ledger)
    requires
        well_formed(tree),
    ensures
        forall|i: int|
            0 <= i < fake_plan(tree).len() ==> mark(fake_plan(tree), ledger).holds(
                #[trigger] fake_plan(tree)[i],
            ),
        forall|i: int|
            0 <= i < plan(tree).len() ==> !runs(
                #[trigger] plan(tree)[i],
                mark(fake_plan(tree), ledger),
            ),
        run(plan(tree), mark(fake_plan(tree), ledger)) == mark(fake_plan(tree), ledger),
{
    let rows = fake_plan(tree);
    let marked = mark(rows, ledger);
    lemma_fake_plan_is_consistent(tree);
    assert forall|i: int| 0 <= i < rows.len() implies marked.holds(#[trigger] rows[i]) by {
        lemma_marked_rows_are_held(rows, ledger, i);
    }
    assert forall|i: int| 0 <= i < plan(tree).len() implies marked.holds(
        #[trigger] plan(tree)[i].guard,
    ) by {
        lemma_guards_are_rows(tree, i);
        let j = lemma_fake_plan_writes_every_row(tree, plan(tree)[i].guard);
        lemma_marked_rows_are_held(rows, ledger, j);
    }
    lemma_held_script_is_idle(plan(tree), marked);
}

/// The stage of every fragment of part `k` is the stage of rank `k`.
proof fn lemma_part_stage(tree: TreeView, k: int, i: int)
    requires
        0 <= k < 7,
        0 <= i < parts(tree)[k].len(),
    ensures
        parts(tree)[k][i].stage.rank() == k,
{
    if k == 0 || k == 3 {
        lemma_migration_part(tree, k, i);
    } else {
        lemma_directory_part(tree, k, i);
    }
}

/// Stages run in order. In every plan the stages of the fragments never go
/// back: the bootstrap migration comes before every other fragment, and the
/// fragments that record functions and triggers come last.
pub proof fn law_stages_never_go_back(tree: TreeView, i: int, j: int)
    requires
        0 <= i <= j < plan(tree).len(),
    ensures
        plan(tree)[i].stage.rank() <= plan(tree)[j].stage.rank(),
        plan(tree)[j].stage == Stage::Bootstrap ==> plan(tree)[i].stage == Stage::Bootstrap,
{
    let a = lemma_plan_index(tree, i);
    let b = lemma_plan_index(tree, j);
    lemma_part_stage(tree, a, i - part_start(tree, a));
    lemma_part_stage(tree, b, j - part_start(tree, b));
    reveal_with_fuel(part_start, 8);
}

/// Two listings of the same tree: the same root, and in every directory the
/// same files, in whatever order.
pub open spec fn same_files(a: TreeView, b: TreeView) -> bool {
    &&& a.root == b.root
    &&& a.migrations.to_multiset() == b.migrations.to_multiset()
    &&& a.functions.to_multiset() == b.functions.to_multiset()
    &&& a.triggers.to_multiset() == b.triggers.to_multiset()
    &&& a.views.to_multiset() == b.views.to_multiset()
}

/// Ordering. The scripts of a well-formed tree do not depend on the order in
/// which its directories were listed.
pub proof fn law_scripts_ignore_listing_order(a: TreeView, b: TreeView, minify: bool)
    requires
        well_formed(a),
        same_files(a, b),
    ensures
        plan(a) == plan(b),
        build_text(a, minify) == build_text(b, minify),
        fake_plan(a) == fake_plan(b),
        fake_text(a) == fake_text(b),
{
    law_listing_order_is_immaterial(a.migrations, b.migrations);
    law_listing_order_is_immaterial(a.functions, b.functions);
    law_listing_order_is_immaterial(a.triggers, b.triggers);
    law_listing_order_is_immaterial(a.views, b.views);
}

/// Two files that the bookkeeping cannot tell apart: the same name and the
/// same hash.
pub open spec fn alike(x: FileView, y: FileView) -> bool {
    x.file_name == y.file_name && content_hash(x.content) == content_hash(y.content)
}

/// Two lists whose files are alike, place by place.
pub open spec fn all_alike(a: Seq<FileView>, b: Seq<FileView>) -> bool {
    a.len() == b.len() && forall|i: int| 0 <= i < a.len() ==> alike(#[trigger] a[i], b[i])
}

proof fn lemma_insert_alike(s: Seq<FileView>, t: Seq<FileView>, f: FileView, g: FileView)
    requires
        all_alike(s, t),
        alike(f, g),
    ensures
        all_alike(insert_by_name(s, f), insert_by_name(t, g)),
    decreases s.len(),
{
    if s.len() > 0 {
        assert(alike(s[s.len() - 1], t[s.len() - 1]));
        if !lex_le(s.last().file_name, f.file_name) {
            let s0 = s.drop_last();
            let t0 = t.drop_last();
            assert forall|i: int| 0 <= i < s0.len() implies alike(#[trigger] s0[i], t0[i]) by {
                assert(alike(s[i], t[i]));
            }
            lemma_insert_alike(s0, t0, f, g);
            let x = insert_by_name(s0, f).push(s.last());
            let y = insert_by_name(t0, g).push(t.last());
            assert forall|i: int| 0 <= i < x.len() implies alike(#[trigger] x[i], y[i]) by {
                if i < x.len() - 1 {
                    assert(alike(insert_by_name(s0, f)[i], insert_by_name(t0, g)[i]));
                }
            }
        } else {
            let x = s.push(f);
            let y = t.push(g);
            assert forall|i: int| 0 <= i < x.len() implies alike(#[trigger] x[i], y[i]) by {
                if i < s.len() {
                    assert(alike(s[i], t[i]));
                }
            }
        }
    }
}

proof fn lemma_sorted_alike(a: Seq<FileView>, b: Seq<FileView>)
    requires
        all_alike(a, b),
    ensures
        all_alike(sorted_sql_files(a), sorted_sql_files(b)),
    decreases a.len(),
{
    if a.len() > 0 {
        let a0 = a.drop_last();
        let b0 = b.drop_last();
        assert(alike(a[a.len() - 1], b[a.len() - 1]));
        assert forall|i: int| 0 <= i < a0.len() implies alike(#[trigger] a0[i], b0[i]) by {
            assert(alike(a[i], b[i]));
        }
        lemma_sorted_alike(a0, b0);
        if is_sql_file(a.last().file_name) {
            lemma_insert_alike(sorted_sql_files(a0), sorted_sql_files(b0), a.last(), b.last());
        }
    }
}

/// Two trees that the bookkeeping cannot tell apart.
pub open spec fn trees_alike(a: TreeView, b: TreeView) -> bool {
    &&& all_alike(a.migrations, b.migrations)
    &&& all_alike(a.functions, b.functions)
    &&& all_alike(a.triggers, b.triggers)
    &&& all_alike(a.views, b.views)
}

/// Fake-apply runs nothing. The bookkeeping-only script is made of the names
/// and the hashes of the artifacts and of nothing else: no text of an
/// artifact has a part in it beyond its hash.
pub proof fn law_fake_script_holds_no_text(a: TreeView, b: TreeView)
    requires
        trees_alike(a, b),
    ensures
        fake_plan(a) == fake_plan(b),
        fake_text(a) == fake_text(b),
{
    lemma_sorted_alike(a.migrations, b.migrations);
    lemma_sorted_alike(a.functions, b.functions);
    lemma_sorted_alike(a.triggers, b.triggers);
    lemma_sorted_alike(a.views, b.views);
    assert(directory_entries(Category::Function, a.functions) =~= directory_entries(
        Category::Function,
        b.functions,
    )) by {
        let x = sorted_sql_files(a.functions);
        let y = sorted_sql_files(b.functions);
        assert forall|i: int| 0 <= i < x.len() implies object_entry(Category::Function, x[i])
            == object_entry(Category::Function, y[i]) by {
            assert(alike(x[i], y[i]));
        }
    }
    assert(directory_entries(Category::Trigger, a.triggers) =~= directory_entries(
        Category::Trigger,
        b.triggers,
    )) by {
        let x = sorted_sql_files(a.triggers);
        let y = sorted_sql_files(b.triggers);
        assert forall|i: int| 0 <= i < x.len() implies object_entry(Category::Trigger, x[i])
            == object_entry(Category::Trigger, y[i]) by {
            assert(alike(x[i], y[i]));
        }
    }
    assert(directory_entries(Category::View, a.views) =~= directory_entries(
        Category::View,
        b.views,
    )) by {
        let x = sorted_sql_files(a.views);
        let y = sorted_sql_files(b.views);
        assert forall|i: int| 0 <= i < x.len() implies object_entry(Category::View, x[i])
            == object_entry(Category::View, y[i]) by {
            assert(alike(x[i], y[i]));
        }
    }
    assert(migration_entries(a.migrations) =~= migration_entries(b.migrations)) by {
        let x = sorted_sql_files(a.migrations);
        let y = sorted_sql_files(b.migrations);
        assert forall|i: int| 0 <= i < x.len() implies migration_entry(x[i]) == migration_entry(
            y[i],
        ) by {
            assert(alike(x[i], y[i]));
        }
    }
}

} // verus!
