use pgm::artifact::{ArtifactTree, Category, SourceFile};
use pgm::commands::{apply, ApplyAction};
use pgm::fake::{build_fake, process_directory_fake, process_migrations_fake};
use pgm::hash::{hash_content, to_hex};
use pgm::script::{
    build, compile_directory, compile_migrations, pgm_tables_create_sql, plan_script,
    process_directory, process_migration, render_script, Entry, Stage,
};
use pgm::seed::{process_seed_directory, seed};
use pgm::text::{filter_text_lines, line_list, LineRule};

fn sample() -> ArtifactTree {
    ArtifactTree {
        root: "db".to_string(),
        migrations: vec![SourceFile::new("00002.sql", "ALTER TABLE t ADD c int;\n\n-- note\n"), SourceFile::new("00000.sql", "CREATE TABLE t (id int);"), SourceFile::new("00001.sql", "M1"), SourceFile::new("README.md", "ignored"), SourceFile::new(".sql", "hidden")],
        functions: vec![SourceFile::new("zeta.sql", "CREATE OR REPLACE FUNCTION zeta() RETURNS int AS $$ SELECT 1 $$ LANGUAGE sql;"), SourceFile::new("alpha.sql", "-- alpha\r\nCREATE OR REPLACE FUNCTION alpha() RETURNS int AS $$ SELECT 2 $$ LANGUAGE sql;\r\n")],
        triggers: vec![SourceFile::new("touch.sql", "TRG")],
        views: vec![SourceFile::new("v.sql", "CREATE OR REPLACE VIEW v AS SELECT 1;")],
    }
}

fn empty_tree() -> ArtifactTree {
    ArtifactTree {
        root: "postgres".to_string(),
        migrations: vec![],
        functions: vec![],
        triggers: vec![],
        views: vec![],
    }
}

#[test]
fn content_hash_is_hexadecimal_md5() {
    assert_eq!(hash_content(""), "d41d8cd98f00b204e9800998ecf8427e");
    assert_eq!(hash_content("abcdefghijklmnopqrstuvwxyz"), "c3fcd3d76192e4007dfb496cca67e13b");
    assert_eq!(hash_content("✅"), "fa3bf6e4f7d17c9beb330c0d59fcffad");
    assert_ne!(hash_content("select 1"), hash_content("select 2"));
    assert_eq!(hash_content("select 1").len(), 32);
    assert_eq!(hash_content(&"x".repeat(1000)).len(), 32);
    assert_eq!(to_hex(&[0x00, 0x0f, 0xa0, 0xff]), "000fa0ff");
    assert_eq!(to_hex(&[]), "");
}

#[test]
fn empty_tree_compiles_to_the_frame_alone() {
    assert_eq!(build(&empty_tree(), false), "DO $pgm$ BEGIN\nSET LOCAL check_function_bodies = false;\nSET LOCAL client_min_messages = notice;\n-- Create tables if they don't exist\nCREATE TABLE IF NOT EXISTS pgm_migration (\n    name TEXT PRIMARY KEY,\n    applied_at TIMESTAMP WITH TIME ZONE DEFAULT CURRENT_TIMESTAMP\n);\nCREATE TABLE IF NOT EXISTS pgm_function (\n    name TEXT PRIMARY KEY,\n    hash TEXT NOT NULL,\n    applied_at TIMESTAMP WITH TIME ZONE DEFAULT CURRENT_TIMESTAMP\n);\nCREATE TABLE IF NOT EXISTS pgm_trigger (\n    name TEXT PRIMARY KEY,\n    hash TEXT NOT NULL,\n    applied_at TIMESTAMP WITH TIME ZONE DEFAULT CURRENT_TIMESTAMP\n);\nCREATE TABLE IF NOT EXISTS pgm_view (\n    name TEXT PRIMARY KEY,\n    hash TEXT NOT NULL,\n    applied_at TIMESTAMP WITH TIME ZONE DEFAULT CURRENT_TIMESTAMP\n);\nSET LOCAL check_function_bodies = true;\nEND $pgm$;");
    assert_eq!(build(&empty_tree(), true), "DO $pgm$ BEGIN\nSET LOCAL check_function_bodies = false;\nSET LOCAL client_min_messages = notice;\nCREATE TABLE IF NOT EXISTS pgm_migration (\n    name TEXT PRIMARY KEY,\n    applied_at TIMESTAMP WITH TIME ZONE DEFAULT CURRENT_TIMESTAMP\n);\nCREATE TABLE IF NOT EXISTS pgm_function (\n    name TEXT PRIMARY KEY,\n    hash TEXT NOT NULL,\n    applied_at TIMESTAMP WITH TIME ZONE DEFAULT CURRENT_TIMESTAMP\n);\nCREATE TABLE IF NOT EXISTS pgm_trigger (\n    name TEXT PRIMARY KEY,\n    hash TEXT NOT NULL,\n    applied_at TIMESTAMP WITH TIME ZONE DEFAULT CURRENT_TIMESTAMP\n);\nCREATE TABLE IF NOT EXISTS pgm_view (\n    name TEXT PRIMARY KEY,\n    hash TEXT NOT NULL,\n    applied_at TIMESTAMP WITH TIME ZONE DEFAULT CURRENT_TIMESTAMP\n);\nSET LOCAL check_function_bodies = true;\nEND $pgm$;");
}

#[test]
fn full_tree_compiles_stage_by_stage() {
    assert_eq!(build(&sample(), false), "DO $pgm$ BEGIN\nSET LOCAL check_function_bodies = false;\nSET LOCAL client_min_messages = notice;\n-- Create tables if they don't exist\nCREATE TABLE IF NOT EXISTS pgm_migration (\n    name TEXT PRIMARY KEY,\n    applied_at TIMESTAMP WITH TIME ZONE DEFAULT CURRENT_TIMESTAMP\n);\nCREATE TABLE IF NOT EXISTS pgm_function (\n    name TEXT PRIMARY KEY,\n    hash TEXT NOT NULL,\n    applied_at TIMESTAMP WITH TIME ZONE DEFAULT CURRENT_TIMESTAMP\n);\nCREATE TABLE IF NOT EXISTS pgm_trigger (\n    name TEXT PRIMARY KEY,\n    hash TEXT NOT NULL,\n    applied_at TIMESTAMP WITH TIME ZONE DEFAULT CURRENT_TIMESTAMP\n);\nCREATE TABLE IF NOT EXISTS pgm_view (\n    name TEXT PRIMARY KEY,\n    hash TEXT NOT NULL,\n    applied_at TIMESTAMP WITH TIME ZONE DEFAULT CURRENT_TIMESTAMP\n);\n-- RUN 00000.sql --\nIF NOT EXISTS (SELECT 1 FROM pgm_migration WHERE name = '00000') THEN\nCREATE TABLE t (id int);\nINSERT INTO pgm_migration (name) VALUES ('00000');\nRAISE NOTICE '✅ Applied migration: 00000';\nELSE\nRAISE NOTICE '- Skipped migration: 00000 (already applied)';\nEND IF;\n-- DONE 00000.sql --\n-- RUN db/functions/alpha --\nIF (SELECT hash FROM pgm_function WHERE name = 'alpha') IS DISTINCT FROM '044f3019fe591171e00e3e45f94e5ad2' THEN\n-- alpha\nCREATE OR REPLACE FUNCTION alpha() RETURNS int AS $$ SELECT 2 $$ LANGUAGE sql;\nELSE\n    RAISE NOTICE '- Skipped db/functions/alpha (no changes)';\nEND IF;\n-- DONE db/functions/alpha --\n-- RUN db/functions/zeta --\nIF (SELECT hash FROM pgm_function WHERE name = 'zeta') IS DISTINCT FROM '2ef6b6f66c9da770ab7fbc0d1521884b' THEN\nCREATE OR REPLACE FUNCTION zeta() RETURNS int AS $$ SELECT 1 $$ LANGUAGE sql;\nELSE\n    RAISE NOTICE '- Skipped db/functions/zeta (no changes)';\nEND IF;\n-- DONE db/functions/zeta --\n-- RUN db/triggers/touch --\nIF (SELECT hash FROM pgm_trigger WHERE name = 'touch') IS DISTINCT FROM 'dcc8c158af953213854575ad922f4ba9' THEN\nTRG\nELSE\n    RAISE NOTICE '- Skipped db/triggers/touch (no changes)';\nEND IF;\n-- DONE db/triggers/touch --\n-- RUN 00001.sql --\nIF NOT EXISTS (SELECT 1 FROM pgm_migration WHERE name = '00001') THEN\nM1\nINSERT INTO pgm_migration (name) VALUES ('00001');\nRAISE NOTICE '✅ Applied migration: 00001';\nELSE\nRAISE NOTICE '- Skipped migration: 00001 (already applied)';\nEND IF;\n-- DONE 00001.sql --\n-- RUN 00002.sql --\nIF NOT EXISTS (SELECT 1 FROM pgm_migration WHERE name = '00002') THEN\nALTER TABLE t ADD c int;\n-- note\nINSERT INTO pgm_migration (name) VALUES ('00002');\nRAISE NOTICE '✅ Applied migration: 00002';\nELSE\nRAISE NOTICE '- Skipped migration: 00002 (already applied)';\nEND IF;\n-- DONE 00002.sql --\n-- RUN db/views/v --\nIF (SELECT hash FROM pgm_view WHERE name = 'v') IS DISTINCT FROM 'e4a1a8a12a2e6924dd244ec31211a6cf' THEN\nCREATE OR REPLACE VIEW v AS SELECT 1;\n    INSERT INTO pgm_view (name, hash) VALUES ('v', 'e4a1a8a12a2e6924dd244ec31211a6cf') ON CONFLICT (name) DO UPDATE SET hash = EXCLUDED.hash, applied_at = CURRENT_TIMESTAMP;\n    RAISE NOTICE '✅ Applied db/views/v';\nELSE\n    RAISE NOTICE '- Skipped db/views/v (no changes)';\nEND IF;\n-- DONE db/views/v --\nSET LOCAL check_function_bodies = true;\n-- RUN db/functions/alpha --\nIF (SELECT hash FROM pgm_function WHERE name = 'alpha') IS DISTINCT FROM '044f3019fe591171e00e3e45f94e5ad2' THEN\n-- alpha\nCREATE OR REPLACE FUNCTION alpha() RETURNS int AS $$ SELECT 2 $$ LANGUAGE sql;\n    INSERT INTO pgm_function (name, hash) VALUES ('alpha', '044f3019fe591171e00e3e45f94e5ad2') ON CONFLICT (name) DO UPDATE SET hash = EXCLUDED.hash, applied_at = CURRENT_TIMESTAMP;\n    RAISE NOTICE '✅ Applied db/functions/alpha';\nELSE\n    RAISE NOTICE '- Skipped db/functions/alpha (no changes)';\nEND IF;\n-- DONE db/functions/alpha --\n-- RUN db/functions/zeta --\nIF (SELECT hash FROM pgm_function WHERE name = 'zeta') IS DISTINCT FROM '2ef6b6f66c9da770ab7fbc0d1521884b' THEN\nCREATE OR REPLACE FUNCTION zeta() RETURNS int AS $$ SELECT 1 $$ LANGUAGE sql;\n    INSERT INTO pgm_function (name, hash) VALUES ('zeta', '2ef6b6f66c9da770ab7fbc0d1521884b') ON CONFLICT (name) DO UPDATE SET hash = EXCLUDED.hash, applied_at = CURRENT_TIMESTAMP;\n    RAISE NOTICE '✅ Applied db/functions/zeta';\nELSE\n    RAISE NOTICE '- Skipped db/functions/zeta (no changes)';\nEND IF;\n-- DONE db/functions/zeta --\n-- RUN db/triggers/touch --\nIF (SELECT hash FROM pgm_trigger WHERE name = 'touch') IS DISTINCT FROM 'dcc8c158af953213854575ad922f4ba9' THEN\nTRG\n    INSERT INTO pgm_trigger (name, hash) VALUES ('touch', 'dcc8c158af953213854575ad922f4ba9') ON CONFLICT (name) DO UPDATE SET hash = EXCLUDED.hash, applied_at = CURRENT_TIMESTAMP;\n    RAISE NOTICE '✅ Applied db/triggers/touch';\nELSE\n    RAISE NOTICE '- Skipped db/triggers/touch (no changes)';\nEND IF;\n-- DONE db/triggers/touch --\nEND $pgm$;");
}

#[test]
fn minified_script_has_no_comment_lines() {
    let sql = build(&sample(), true);
    assert_eq!(sql, "DO $pgm$ BEGIN\nSET LOCAL check_function_bodies = false;\nSET LOCAL client_min_messages = notice;\nCREATE TABLE IF NOT EXISTS pgm_migration (\n    name TEXT PRIMARY KEY,\n    applied_at TIMESTAMP WITH TIME ZONE DEFAULT CURRENT_TIMESTAMP\n);\nCREATE TABLE IF NOT EXISTS pgm_function (\n    name TEXT PRIMARY KEY,\n    hash TEXT NOT NULL,\n    applied_at TIMESTAMP WITH TIME ZONE DEFAULT CURRENT_TIMESTAMP\n);\nCREATE TABLE IF NOT EXISTS pgm_trigger (\n    name TEXT PRIMARY KEY,\n    hash TEXT NOT NULL,\n    applied_at TIMESTAMP WITH TIME ZONE DEFAULT CURRENT_TIMESTAMP\n);\nCREATE TABLE IF NOT EXISTS pgm_view (\n    name TEXT PRIMARY KEY,\n    hash TEXT NOT NULL,\n    applied_at TIMESTAMP WITH TIME ZONE DEFAULT CURRENT_TIMESTAMP\n);\nIF NOT EXISTS (SELECT 1 FROM pgm_migration WHERE name = '00000') THEN\nCREATE TABLE t (id int);\nINSERT INTO pgm_migration (name) VALUES ('00000');\nRAISE NOTICE '✅ Applied migration: 00000';\nELSE\nRAISE NOTICE '- Skipped migration: 00000 (already applied)';\nEND IF;\nIF (SELECT hash FROM pgm_function WHERE name = 'alpha') IS DISTINCT FROM '044f3019fe591171e00e3e45f94e5ad2' THEN\nCREATE OR REPLACE FUNCTION alpha() RETURNS int AS $$ SELECT 2 $$ LANGUAGE sql;\nELSE\n    RAISE NOTICE '- Skipped db/functions/alpha (no changes)';\nEND IF;\nIF (SELECT hash FROM pgm_function WHERE name = 'zeta') IS DISTINCT FROM '2ef6b6f66c9da770ab7fbc0d1521884b' THEN\nCREATE OR REPLACE FUNCTION zeta() RETURNS int AS $$ SELECT 1 $$ LANGUAGE sql;\nELSE\n    RAISE NOTICE '- Skipped db/functions/zeta (no changes)';\nEND IF;\nIF (SELECT hash FROM pgm_trigger WHERE name = 'touch') IS DISTINCT FROM 'dcc8c158af953213854575ad922f4ba9' THEN\nTRG\nELSE\n    RAISE NOTICE '- Skipped db/triggers/touch (no changes)';\nEND IF;\nIF NOT EXISTS (SELECT 1 FROM pgm_migration WHERE name = '00001') THEN\nM1\nINSERT INTO pgm_migration (name) VALUES ('00001');\nRAISE NOTICE '✅ Applied migration: 00001';\nELSE\nRAISE NOTICE '- Skipped migration: 00001 (already applied)';\nEND IF;\nIF NOT EXISTS (SELECT 1 FROM pgm_migration WHERE name = '00002') THEN\nALTER TABLE t ADD c int;\nINSERT INTO pgm_migration (name) VALUES ('00002');\nRAISE NOTICE '✅ Applied migration: 00002';\nELSE\nRAISE NOTICE '- Skipped migration: 00002 (already applied)';\nEND IF;\nIF (SELECT hash FROM pgm_view WHERE name = 'v') IS DISTINCT FROM 'e4a1a8a12a2e6924dd244ec31211a6cf' THEN\nCREATE OR REPLACE VIEW v AS SELECT 1;\n    INSERT INTO pgm_view (name, hash) VALUES ('v', 'e4a1a8a12a2e6924dd244ec31211a6cf') ON CONFLICT (name) DO UPDATE SET hash = EXCLUDED.hash, applied_at = CURRENT_TIMESTAMP;\n    RAISE NOTICE '✅ Applied db/views/v';\nELSE\n    RAISE NOTICE '- Skipped db/views/v (no changes)';\nEND IF;\nSET LOCAL check_function_bodies = true;\nIF (SELECT hash FROM pgm_function WHERE name = 'alpha') IS DISTINCT FROM '044f3019fe591171e00e3e45f94e5ad2' THEN\nCREATE OR REPLACE FUNCTION alpha() RETURNS int AS $$ SELECT 2 $$ LANGUAGE sql;\n    INSERT INTO pgm_function (name, hash) VALUES ('alpha', '044f3019fe591171e00e3e45f94e5ad2') ON CONFLICT (name) DO UPDATE SET hash = EXCLUDED.hash, applied_at = CURRENT_TIMESTAMP;\n    RAISE NOTICE '✅ Applied db/functions/alpha';\nELSE\n    RAISE NOTICE '- Skipped db/functions/alpha (no changes)';\nEND IF;\nIF (SELECT hash FROM pgm_function WHERE name = 'zeta') IS DISTINCT FROM '2ef6b6f66c9da770ab7fbc0d1521884b' THEN\nCREATE OR REPLACE FUNCTION zeta() RETURNS int AS $$ SELECT 1 $$ LANGUAGE sql;\n    INSERT INTO pgm_function (name, hash) VALUES ('zeta', '2ef6b6f66c9da770ab7fbc0d1521884b') ON CONFLICT (name) DO UPDATE SET hash = EXCLUDED.hash, applied_at = CURRENT_TIMESTAMP;\n    RAISE NOTICE '✅ Applied db/functions/zeta';\nELSE\n    RAISE NOTICE '- Skipped db/functions/zeta (no changes)';\nEND IF;\nIF (SELECT hash FROM pgm_trigger WHERE name = 'touch') IS DISTINCT FROM 'dcc8c158af953213854575ad922f4ba9' THEN\nTRG\n    INSERT INTO pgm_trigger (name, hash) VALUES ('touch', 'dcc8c158af953213854575ad922f4ba9') ON CONFLICT (name) DO UPDATE SET hash = EXCLUDED.hash, applied_at = CURRENT_TIMESTAMP;\n    RAISE NOTICE '✅ Applied db/triggers/touch';\nELSE\n    RAISE NOTICE '- Skipped db/triggers/touch (no changes)';\nEND IF;\nEND $pgm$;");
    assert!(sql.lines().all(|l| !l.is_empty() && !l.starts_with("--")));
}

#[test]
fn script_does_not_depend_on_listing_order() {
    let mut shuffled = sample();
    shuffled.migrations.reverse();
    shuffled.functions.reverse();
    assert_eq!(build(&shuffled, false), build(&sample(), false));
    assert_eq!(build_fake(&shuffled), build_fake(&sample()));
}

#[test]
fn migrations_compile_in_ascending_order_bootstrap_first() {
    let plan = plan_script(&sample());
    let labels: Vec<(Stage, &str)> = plan.iter().map(|f| (f.stage, f.label.as_str())).collect();
    assert_eq!(
        labels,
        vec![
            (Stage::Bootstrap, "00000.sql"),
            (Stage::FunctionsFirstPass, "db/functions/alpha"),
            (Stage::FunctionsFirstPass, "db/functions/zeta"),
            (Stage::TriggersFirstPass, "db/triggers/touch"),
            (Stage::Migrations, "00001.sql"),
            (Stage::Migrations, "00002.sql"),
            (Stage::Views, "db/views/v"),
            (Stage::FunctionsSecondPass, "db/functions/alpha"),
            (Stage::FunctionsSecondPass, "db/functions/zeta"),
            (Stage::TriggersSecondPass, "db/triggers/touch"),
        ]
    );
    let records: Vec<bool> = plan.iter().map(|f| f.record).collect();
    assert_eq!(records, vec![true, false, false, false, true, true, true, true, true, true]);
    assert_eq!(render_script(&plan).lines().next(), Some("DO $pgm$ BEGIN"));
}

#[test]
fn changed_text_changes_the_guard_and_nothing_else() {
    let before =
        compile_directory("d", Category::View, true, &vec![SourceFile::new("v.sql", "select 1")]);
    let after =
        compile_directory("d", Category::View, true, &vec![SourceFile::new("v.sql", "select 2")]);
    match (&before[0].guard, &after[0].guard) {
        (
            Entry::Hash { category: c1, name: n1, hash: h1 },
            Entry::Hash { category: c2, name: n2, hash: h2 },
        ) => {
            assert_eq!((c1, n1), (c2, n2));
            assert_eq!(h1, "95adb6e77a0884d9e50232cb8c5c969d");
            assert_eq!(h2, "8222fbf4485048374b8751d04bb6c90a");
        }
        _ => panic!("hash guards expected"),
    }
}

#[test]
fn migration_guard_ignores_the_text() {
    let a = compile_migrations(&vec![SourceFile::new("00007.sql", "one")], false);
    let b = compile_migrations(&vec![SourceFile::new("00007.sql", "two")], false);
    assert_eq!(a[0].guard, Entry::Migration { name: "00007".to_string() });
    assert_eq!(a[0].guard, b[0].guard);
    assert!(compile_migrations(&vec![SourceFile::new("00007.sql", "one")], true).is_empty());
    assert_eq!(
        compile_migrations(&vec![SourceFile::new("00000.sql", "b")], true)[0].stage,
        Stage::Bootstrap
    );
}

#[test]
fn directory_pass_text() {
    let files = vec![SourceFile::new("v.sql", "CREATE OR REPLACE VIEW v AS SELECT 1;")];
    assert_eq!(process_directory("db/views", &files, Category::View, true), "-- RUN db/views/v --\nIF (SELECT hash FROM pgm_view WHERE name = 'v') IS DISTINCT FROM 'e4a1a8a12a2e6924dd244ec31211a6cf' THEN\nCREATE OR REPLACE VIEW v AS SELECT 1;\n    INSERT INTO pgm_view (name, hash) VALUES ('v', 'e4a1a8a12a2e6924dd244ec31211a6cf') ON CONFLICT (name) DO UPDATE SET hash = EXCLUDED.hash, applied_at = CURRENT_TIMESTAMP;\n    RAISE NOTICE '✅ Applied db/views/v';\nELSE\n    RAISE NOTICE '- Skipped db/views/v (no changes)';\nEND IF;\n-- DONE db/views/v --\n");
    assert_eq!(process_directory("db/views", &files, Category::View, false), "-- RUN db/views/v --\nIF (SELECT hash FROM pgm_view WHERE name = 'v') IS DISTINCT FROM 'e4a1a8a12a2e6924dd244ec31211a6cf' THEN\nCREATE OR REPLACE VIEW v AS SELECT 1;\nELSE\n    RAISE NOTICE '- Skipped db/views/v (no changes)';\nEND IF;\n-- DONE db/views/v --\n");
    assert_eq!(
        process_directory(
            "x",
            &vec![SourceFile::new("notes.txt", "n")],
            Category::Function,
            true
        ),
        ""
    );
}

#[test]
fn migration_text() {
    assert_eq!(process_migration(&SourceFile::new("00003.sql", "SELECT 3;")), "-- RUN 00003.sql --\nIF NOT EXISTS (SELECT 1 FROM pgm_migration WHERE name = '00003') THEN\nSELECT 3;\nINSERT INTO pgm_migration (name) VALUES ('00003');\nRAISE NOTICE '✅ Applied migration: 00003';\nELSE\nRAISE NOTICE '- Skipped migration: 00003 (already applied)';\nEND IF;\n-- DONE 00003.sql --\n");
}

#[test]
fn tracking_tables_statement() {
    let sql = pgm_tables_create_sql();
    assert!(sql.starts_with(
        "\n-- Create tables if they don't exist\nCREATE TABLE IF NOT EXISTS pgm_migration ("
    ));
    assert_eq!(sql.matches("CREATE TABLE IF NOT EXISTS").count(), 4);
    assert!(sql.ends_with(");\n"));
}

#[test]
fn fake_script_records_everything_and_runs_nothing() {
    let sql = build_fake(&sample());
    assert_eq!(sql, "DO $pgm$ BEGIN\n\n-- Create tables if they don't exist\nCREATE TABLE IF NOT EXISTS pgm_migration (\n    name TEXT PRIMARY KEY,\n    applied_at TIMESTAMP WITH TIME ZONE DEFAULT CURRENT_TIMESTAMP\n);\n\nCREATE TABLE IF NOT EXISTS pgm_function (\n    name TEXT PRIMARY KEY,\n    hash TEXT NOT NULL,\n    applied_at TIMESTAMP WITH TIME ZONE DEFAULT CURRENT_TIMESTAMP\n);\n\nCREATE TABLE IF NOT EXISTS pgm_trigger (\n    name TEXT PRIMARY KEY,\n    hash TEXT NOT NULL,\n    applied_at TIMESTAMP WITH TIME ZONE DEFAULT CURRENT_TIMESTAMP\n);\n\nCREATE TABLE IF NOT EXISTS pgm_view (\n    name TEXT PRIMARY KEY,\n    hash TEXT NOT NULL,\n    applied_at TIMESTAMP WITH TIME ZONE DEFAULT CURRENT_TIMESTAMP\n);\n-- Fake apply pgm_function 'alpha'\nINSERT INTO pgm_function (name, hash) VALUES ('alpha', '044f3019fe591171e00e3e45f94e5ad2') \n                ON CONFLICT (name) DO UPDATE SET hash = EXCLUDED.hash, applied_at = CURRENT_TIMESTAMP;\n                RAISE NOTICE '✅ Fake applied: pgm_function - alpha';\n-- Fake apply pgm_function 'zeta'\nINSERT INTO pgm_function (name, hash) VALUES ('zeta', '2ef6b6f66c9da770ab7fbc0d1521884b') \n                ON CONFLICT (name) DO UPDATE SET hash = EXCLUDED.hash, applied_at = CURRENT_TIMESTAMP;\n                RAISE NOTICE '✅ Fake applied: pgm_function - zeta';\n-- Fake apply pgm_trigger 'touch'\nINSERT INTO pgm_trigger (name, hash) VALUES ('touch', 'dcc8c158af953213854575ad922f4ba9') \n                ON CONFLICT (name) DO UPDATE SET hash = EXCLUDED.hash, applied_at = CURRENT_TIMESTAMP;\n                RAISE NOTICE '✅ Fake applied: pgm_trigger - touch';\n-- Fake apply pgm_view 'v'\nINSERT INTO pgm_view (name, hash) VALUES ('v', 'e4a1a8a12a2e6924dd244ec31211a6cf') \n                ON CONFLICT (name) DO UPDATE SET hash = EXCLUDED.hash, applied_at = CURRENT_TIMESTAMP;\n                RAISE NOTICE '✅ Fake applied: pgm_view - v';\n-- Fake apply migration '00000'\nINSERT INTO pgm_migration (name) VALUES ('00000') ON CONFLICT (name) DO NOTHING;\n            RAISE NOTICE '✅ Fake applied migration: 00000';\n-- Fake apply migration '00001'\nINSERT INTO pgm_migration (name) VALUES ('00001') ON CONFLICT (name) DO NOTHING;\n            RAISE NOTICE '✅ Fake applied migration: 00001';\n-- Fake apply migration '00002'\nINSERT INTO pgm_migration (name) VALUES ('00002') ON CONFLICT (name) DO NOTHING;\n            RAISE NOTICE '✅ Fake applied migration: 00002';\nEND $pgm$;\n");
    for body in ["SELECT 1 $$", "TRG", "ALTER TABLE", "CREATE OR REPLACE VIEW"] {
        assert!(!sql.contains(body));
    }
    assert_eq!(build_fake(&empty_tree()), "DO $pgm$ BEGIN\n\n-- Create tables if they don't exist\nCREATE TABLE IF NOT EXISTS pgm_migration (\n    name TEXT PRIMARY KEY,\n    applied_at TIMESTAMP WITH TIME ZONE DEFAULT CURRENT_TIMESTAMP\n);\n\nCREATE TABLE IF NOT EXISTS pgm_function (\n    name TEXT PRIMARY KEY,\n    hash TEXT NOT NULL,\n    applied_at TIMESTAMP WITH TIME ZONE DEFAULT CURRENT_TIMESTAMP\n);\n\nCREATE TABLE IF NOT EXISTS pgm_trigger (\n    name TEXT PRIMARY KEY,\n    hash TEXT NOT NULL,\n    applied_at TIMESTAMP WITH TIME ZONE DEFAULT CURRENT_TIMESTAMP\n);\n\nCREATE TABLE IF NOT EXISTS pgm_view (\n    name TEXT PRIMARY KEY,\n    hash TEXT NOT NULL,\n    applied_at TIMESTAMP WITH TIME ZONE DEFAULT CURRENT_TIMESTAMP\n);\nEND $pgm$;\n");
}

#[test]
fn fake_directory_and_migration_text() {
    assert_eq!(
        process_directory_fake(Category::Trigger, &vec![SourceFile::new("touch.sql", "TRG")]),
        "-- Fake apply pgm_trigger 'touch'\nINSERT INTO pgm_trigger (name, hash) VALUES ('touch', 'dcc8c158af953213854575ad922f4ba9') \n                ON CONFLICT (name) DO UPDATE SET hash = EXCLUDED.hash, applied_at = CURRENT_TIMESTAMP;\n                RAISE NOTICE '✅ Fake applied: pgm_trigger - touch';\n"
    );
    assert_eq!(
        process_migrations_fake(&vec![
            SourceFile::new("00001.sql", "x"),
            SourceFile::new("00000.sql", "y")
        ]),
        "-- Fake apply migration '00000'\nINSERT INTO pgm_migration (name) VALUES ('00000') ON CONFLICT (name) DO NOTHING;\n            RAISE NOTICE '✅ Fake applied migration: 00000';\n-- Fake apply migration '00001'\nINSERT INTO pgm_migration (name) VALUES ('00001') ON CONFLICT (name) DO NOTHING;\n            RAISE NOTICE '✅ Fake applied migration: 00001';\n"
    );
}

#[test]
fn apply_chooses_script_and_action() {
    let tree = sample();
    assert_eq!(apply(&tree, true, false), ApplyAction::Print(build(&tree, false)));
    assert_eq!(apply(&tree, false, false), ApplyAction::Execute(build(&tree, true)));
    assert_eq!(apply(&tree, true, true), ApplyAction::Print(build_fake(&tree)));
    assert_eq!(apply(&tree, false, true), ApplyAction::Execute(build_fake(&tree)));
}

#[test]
fn seed_script_runs_seeds_in_order() {
    let seeds = vec![
        SourceFile::new("00002.sql", "INSERT INTO t VALUES (2);"),
        SourceFile::new("00001.sql", "INSERT INTO t VALUES (1);"),
        SourceFile::new("notes.md", "no seed"),
    ];
    assert_eq!(
        seed("db", &seeds),
        "DO $pgm_seed$ BEGIN SET LOCAL client_min_messages=NOTICE;-- RUN db/seeds/00001 --\nINSERT INTO t VALUES (1);\nRAISE NOTICE '✅ Applied seed: 00001';\n-- DONE db/seeds/00001 --\n-- RUN db/seeds/00002 --\nINSERT INTO t VALUES (2);\nRAISE NOTICE '✅ Applied seed: 00002';\n-- DONE db/seeds/00002 --\nEND $pgm_seed$;"
    );
    assert_eq!(
        seed("db", &vec![]),
        "DO $pgm_seed$ BEGIN SET LOCAL client_min_messages=NOTICE;END $pgm_seed$;"
    );
    assert_eq!(
        process_seed_directory("s", &vec![SourceFile::new("a.sql", "A")]),
        "-- RUN s/a --\nA\nRAISE NOTICE '✅ Applied seed: a';\n-- DONE s/a --\n"
    );
}

#[test]
fn lines_end_at_line_feeds() {
    assert_eq!(line_list("a\nb\r\n\nc\r"), vec!["a", "b", "", "c\r"]);
    assert_eq!(line_list("a\r\r\n"), vec!["a\r"]);
    assert!(line_list("").is_empty());
    assert_eq!(line_list("\n"), vec![""]);
    assert_eq!(filter_text_lines("a\n\n--b\n \nc\n", LineRule::DropEmpty), "a\n--b\n \nc");
    assert_eq!(
        filter_text_lines("a\n\n--b\n -- c\n-", LineRule::DropComments),
        "a\n\n -- c\n-"
    );
    assert_eq!(
        filter_text_lines(
            "--x\nSET client_min_messages = warning;\n\nSELECT pg_catalog.set_config('search_path', '', false);\nSELECT 1;\n",
            LineRule::DropDumpNoise
        ),
        "SELECT 1;"
    );
}
