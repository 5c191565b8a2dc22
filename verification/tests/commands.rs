use pgm::commands::{error_message, init, InitPlan, PlannedFile};
use pgm::dump::ParseErrorKind;
use pgm::extract::ParseError;
use pgm::report::{execution_failure, relay, strip_location};

fn planned(path: &str, content: &str) -> PlannedFile {
    PlannedFile { path: path.to_string(), content: content.to_string() }
}

fn directories() -> Vec<String> {
    ["db", "db/migrations", "db/triggers", "db/views", "db/functions"]
        .iter()
        .map(|s| s.to_string())
        .collect()
}

#[test]
fn fresh_root_has_directories_and_no_files() {
    assert_eq!(
        init("db", false, "CREATE VIEW broken"),
        Ok(InitPlan { directories: directories(), files: vec![] })
    );
}

#[test]
fn root_from_a_dump_has_one_file_for_each_object() {
    let dump = "SET x = 1;\nCREATE FUNCTION f() RETURNS trigger AS $$ BEGIN END $$;\nCREATE VIEW v AS SELECT 1;\nCREATE FUNCTION g() RETURNS int AS $$ SELECT 1 $$;\nCREATE TABLE t ();\n";
    assert_eq!(
        init("db", true, dump),
        Ok(InitPlan {
            directories: directories(),
            files: vec![
                planned("db/migrations/00000.sql", "SET x = 1;\nCREATE TABLE t ();"),
                planned(
                    "db/triggers/f.sql",
                    "CREATE OR REPLACE FUNCTION f() RETURNS trigger AS $$ BEGIN END $$;\n"
                ),
                planned("db/views/v.sql", "CREATE OR REPLACE VIEW v AS SELECT 1;\n"),
                planned(
                    "db/functions/g.sql",
                    "CREATE OR REPLACE FUNCTION g() RETURNS int AS $$ SELECT 1 $$;\n"
                ),
            ],
        })
    );
    assert_eq!(
        init("db", true, ""),
        Ok(InitPlan {
            directories: directories(),
            files: vec![planned("db/migrations/00000.sql", "")],
        })
    );
}

#[test]
fn root_from_a_broken_dump_is_refused() {
    assert_eq!(
        init("db", true, "SELECT 1;\n\nCREATE VIEW v AS SELECT 1"),
        Err(ParseError { kind: ParseErrorKind::UnterminatedView, offset: 11, line: 3 })
    );
}

#[test]
fn failures_are_described_with_their_place() {
    let at = |kind| ParseError { kind, offset: 40, line: 3 };
    assert_eq!(
        error_message(&at(ParseErrorKind::MissingName)),
        "line 3, character 40: nothing names the object to create"
    );
    assert_eq!(
        error_message(&at(ParseErrorKind::MissingReturns)),
        "line 3, character 40: the function header has no RETURNS"
    );
    assert_eq!(
        error_message(&at(ParseErrorKind::MissingReturnType)),
        "line 3, character 40: nothing follows RETURNS"
    );
    assert_eq!(
        error_message(&at(ParseErrorKind::MissingBody)),
        "line 3, character 40: no dollar-quote opens the function body"
    );
    assert_eq!(
        error_message(&at(ParseErrorKind::UnterminatedBody)),
        "line 3, character 40: the dollar-quote of the function body is never closed"
    );
    assert_eq!(
        error_message(&at(ParseErrorKind::UnterminatedView)),
        "line 3, character 40: no semicolon ends the view"
    );
}

#[test]
fn diagnostics_are_relayed_without_their_location() {
    assert_eq!(strip_location("psql:/tmp/x.sql:12: NOTICE:  applied"), "NOTICE:  applied");
    assert_eq!(strip_location("no location"), "no location");
    assert_eq!(strip_location("a:b"), "a:b");
    assert_eq!(strip_location(": "), "");
    assert_eq!(strip_location(":"), ":");
    assert_eq!(strip_location(""), "");
    assert_eq!(strip_location("x: "), "");
    assert_eq!(strip_location("x:: y: z"), "y: z");
    assert_eq!(
        relay("psql:f:1: NOTICE:  one\r\nplain\n\npsql:f:9: ERROR:  two"),
        vec!["NOTICE:  one", "plain", "", "ERROR:  two"]
    );
    assert!(relay("").is_empty());
}

#[test]
fn failed_run_is_reported_with_its_exit_code() {
    assert_eq!(execution_failure(Some(3)), "psql command failed with exit code: 3");
    assert_eq!(execution_failure(Some(-2)), "psql command failed with exit code: -2");
    assert_eq!(execution_failure(None), "psql command failed with exit code: -1");
}
