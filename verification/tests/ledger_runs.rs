use std::collections::{BTreeMap, BTreeSet};

use pgm::artifact::{ArtifactTree, Category, SourceFile};
use pgm::fake::plan_fake;
use pgm::script::{plan_script, Entry, Fragment};

#[derive(Clone, Debug, Default, PartialEq)]
struct Tables {
    migrations: BTreeSet<String>,
    hashes: BTreeMap<(u8, String), String>,
}

fn table(category: &Category) -> u8 {
    match category {
        Category::Function => 0,
        Category::Trigger => 1,
        Category::View => 2,
    }
}

impl Tables {
    fn holds(&self, entry: &Entry) -> bool {
        match entry {
            Entry::Hash { category, name, hash } => {
                self.hashes.get(&(table(category), name.clone())) == Some(hash)
            }
            Entry::Migration { name } => self.migrations.contains(name),
        }
    }

    fn write(&mut self, entry: &Entry) {
        match entry {
            Entry::Hash { category, name, hash } => {
                self.hashes.insert((table(category), name.clone()), hash.clone());
            }
            Entry::Migration { name } => {
                self.migrations.insert(name.clone());
            }
        }
    }

    fn run(&mut self, script: &[Fragment]) -> Vec<String> {
        let mut ran = Vec::new();
        for fragment in script {
            if !self.holds(&fragment.guard) {
                ran.push(fragment.label.clone());
                if fragment.record {
                    self.write(&fragment.guard);
                }
            }
        }
        ran
    }
}

fn tree(function_text: &str, migration_text: &str) -> ArtifactTree {
    ArtifactTree {
        root: "db".to_string(),
        migrations: vec![
            SourceFile::new("00001.sql", migration_text),
            SourceFile::new("00000.sql", "BOOT"),
        ],
        functions: vec![SourceFile::new("f.sql", function_text), SourceFile::new("g.sql", "G")],
        triggers: vec![SourceFile::new("t.sql", "T")],
        views: vec![SourceFile::new("v.sql", "V")],
    }
}

#[test]
fn second_run_of_an_unchanged_tree_runs_nothing() {
    let script = plan_script(&tree("F", "M"));
    let mut tables = Tables::default();
    let first = tables.run(&script);
    assert_eq!(
        first,
        vec![
            "00000.sql",
            "db/functions/f",
            "db/functions/g",
            "db/triggers/t",
            "00001.sql",
            "db/views/v",
            "db/functions/f",
            "db/functions/g",
            "db/triggers/t",
        ]
    );
    let settled = tables.clone();
    assert!(tables.run(&script).is_empty());
    assert_eq!(tables, settled);
}

#[test]
fn changed_function_runs_again_and_nothing_else_does() {
    let mut tables = Tables::default();
    tables.run(&plan_script(&tree("F", "M")));
    let ran = tables.run(&plan_script(&tree("F2", "M")));
    assert_eq!(ran, vec!["db/functions/f", "db/functions/f"]);
    assert!(tables.run(&plan_script(&tree("F2", "M"))).is_empty());
}

#[test]
fn edited_migration_does_not_run_again() {
    let mut tables = Tables::default();
    tables.run(&plan_script(&tree("F", "M")));
    assert!(tables.run(&plan_script(&tree("F", "M edited"))).is_empty());
}

#[test]
fn fake_apply_on_an_empty_ledger_marks_everything() {
    let t = tree("F", "M");
    let mut tables = Tables::default();
    let rows = plan_fake(&t);
    assert_eq!(rows.len(), 6);
    for row in &rows {
        tables.write(row);
    }
    for row in &rows {
        assert!(tables.holds(row));
    }
    assert_eq!(
        tables.migrations.iter().map(|s| s.as_str()).collect::<Vec<_>>(),
        vec!["00000", "00001"]
    );
    assert_eq!(
        tables.hashes.get(&(0, "f".to_string())).map(|s| s.as_str()),
        Some("800618943025315f869e4e1f09471012")
    );
    assert!(tables.run(&plan_script(&t)).is_empty());
}

#[test]
fn every_recorded_hash_has_thirty_two_characters() {
    let long = "select 1;\n".repeat(500);
    for text in ["", "x", long.as_str()] {
        let tree = tree(text, text);
        let guards = plan_script(&tree).into_iter().map(|f| f.guard);
        let mut hashes = 0;
        for entry in guards.chain(plan_fake(&tree)) {
            if let Entry::Hash { hash, .. } = entry {
                assert_eq!(hash.len(), 32);
                assert!(hash.chars().all(|c| c.is_ascii_digit() || ('a'..='f').contains(&c)));
                hashes += 1;
            }
        }
        assert!(hashes > 0);
    }
}
