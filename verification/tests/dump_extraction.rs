use pgm::artifact::Category;
use pgm::dump::{step, tokenize, ParseErrorKind, State};
use pgm::extract::{extract, finish};

#[test]
fn tokens_keep_their_trailing_whitespace() {
    let tokens = tokenize("  CREATE  VIEW\n\tbar AS\r\nSELECT 1;");
    assert_eq!(tokens, vec!["  ", "CREATE  ", "VIEW\n\t", "bar ", "AS\r\n", "SELECT ", "1;"]);
    assert_eq!(tokens.concat(), "  CREATE  VIEW\n\tbar AS\r\nSELECT 1;");
    assert!(tokenize("").is_empty());
}

#[test]
fn dump_round_trip_yields_function_view_and_empty_residual() {
    let dump = "CREATE FUNCTION foo() RETURNS integer AS $$...$$ LANGUAGE x;\nCREATE VIEW bar AS SELECT 1;\n";
    let x = extract(dump).unwrap();
    assert_eq!(x.objects.len(), 2);
    assert_eq!(x.objects[0].category, Category::Function);
    assert_eq!(x.objects[0].name, "foo");
    assert_eq!(
        x.objects[0].body,
        "CREATE OR REPLACE FUNCTION foo() RETURNS integer AS $$...$$ LANGUAGE x;\n"
    );
    assert_eq!(x.objects[1].category, Category::View);
    assert_eq!(x.objects[1].name, "bar");
    assert_eq!(x.objects[1].body, "CREATE OR REPLACE VIEW bar AS SELECT 1;\n");
    assert_eq!(x.bootstrap, "");
}

#[test]
fn function_that_returns_trigger_is_a_trigger() {
    let x = extract("CREATE FUNCTION f() RETURNS TRIGGER AS $t$...$t$ LANGUAGE x;").unwrap();
    assert_eq!(x.objects.len(), 1);
    assert_eq!(x.objects[0].category, Category::Trigger);
    assert_eq!(x.objects[0].name, "f");
    assert_eq!(
        x.objects[0].body,
        "CREATE OR REPLACE FUNCTION f() RETURNS TRIGGER AS $t$...$t$ LANGUAGE x;"
    );
    let lower = extract("create function g() returns trigger as $$ begin end $$;").unwrap();
    assert_eq!(lower.objects[0].category, Category::Trigger);
}

#[test]
fn dump_in_the_dump_tools_layout() {
    let dump = "--\n-- PostgreSQL database dump\n--\n\nSET client_min_messages = warning;\nSELECT pg_catalog.set_config('search_path', '', false);\n\nCREATE FUNCTION public.add(a integer, b integer) RETURNS integer\n    LANGUAGE plpgsql\n    AS $_$\nBEGIN\n  RETURN a + b; -- $1\nEND;\n$_$;\n\n\nCREATE TABLE public.t (\n    id integer\n);\n\nCREATE MATERIALIZED VIEW public.m AS\n SELECT 1\n  WITH NO DATA;\n";
    let x = extract(dump).unwrap();
    assert_eq!(x.objects.len(), 2);
    assert_eq!(x.objects[0].name, "public.add");
    assert_eq!(
        x.objects[0].body,
        "CREATE OR REPLACE FUNCTION public.add(a integer, b integer) RETURNS integer\n    LANGUAGE plpgsql\n    AS $_$\nBEGIN\n  RETURN a + b; -- $1\nEND;\n$_$;\n\n\n"
    );
    assert_eq!(x.objects[1].category, Category::View);
    assert_eq!(x.objects[1].name, "public.m");
    assert_eq!(
        x.objects[1].body,
        "CREATE MATERIALIZED VIEW public.m AS\n SELECT 1\n  WITH NO DATA;\n"
    );
    assert_eq!(x.bootstrap, "CREATE TABLE public.t (\n    id integer\n);");
}

#[test]
fn last_object_of_a_name_wins() {
    let dump = "CREATE VIEW v AS SELECT 1;\nCREATE VIEW w AS SELECT 2;\nCREATE VIEW v AS SELECT 3;\n";
    let x = extract(dump).unwrap();
    assert_eq!(x.objects.len(), 2);
    assert_eq!(x.objects[0].name, "w");
    assert_eq!(x.objects[1].name, "v");
    assert_eq!(x.objects[1].body, "CREATE OR REPLACE VIEW v AS SELECT 3;\n");
}

#[test]
fn unfinished_statements_are_located() {
    let e = extract("SELECT 1;\nCREATE FUNCTION f() LANGUAGE x;").unwrap_err();
    assert_eq!(e.kind, ParseErrorKind::MissingReturns);
    assert_eq!(e.offset, 10);
    assert_eq!(e.line, 2);
    let e = extract("CREATE FUNCTION f() RETURNS").unwrap_err();
    assert_eq!((e.kind, e.offset, e.line), (ParseErrorKind::MissingReturnType, 0, 1));
    let e = extract("CREATE FUNCTION f() RETURNS int AS").unwrap_err();
    assert_eq!(e.kind, ParseErrorKind::MissingBody);
    let e = extract("\n\nCREATE FUNCTION f() RETURNS int AS $$ body").unwrap_err();
    assert_eq!((e.kind, e.offset, e.line), (ParseErrorKind::UnterminatedBody, 2, 3));
    let e = extract("CREATE VIEW v AS SELECT 1").unwrap_err();
    assert_eq!(e.kind, ParseErrorKind::UnterminatedView);
    let e = extract("CREATE VIEW").unwrap_err();
    assert_eq!(e.kind, ParseErrorKind::MissingName);
    let e = extract("CREATE FUNCTION (a int)").unwrap_err();
    assert_eq!(e.kind, ParseErrorKind::MissingName);
}

#[test]
fn other_statements_stay_in_the_residual() {
    let x = extract("CREATE TABLE t (id int);\nCREATE MATERIALIZED TABLE x;\nCREATE").unwrap();
    assert!(x.objects.is_empty());
    assert_eq!(x.bootstrap, "CREATE TABLE t (id int);\nCREATE MATERIALIZED TABLE x;\nCREATE");
}

#[test]
fn scanner_steps_one_token_at_a_time() {
    let s = step(State::Scanning, "create\n").unwrap();
    assert_eq!(s.state, State::Created { held: "create\n".to_string() });
    assert_eq!(s.residual, "");
    let s = step(s.state, "TABLE ").unwrap();
    assert_eq!(s.state, State::Scanning);
    assert_eq!(s.residual, "create\nTABLE ");
    assert!(s.object.is_none());
    let s = step(
        State::Body {
            category: Category::Function,
            name: "f".to_string(),
            tag: "$x$".to_string(),
            text: "T ".to_string(),
        },
        "END$x$;\n",
    )
    .unwrap();
    let o = s.object.unwrap();
    assert_eq!((o.name.as_str(), o.body.as_str()), ("f", "T END$x$;\n"));
    let done = finish(State::Closing {
        category: Category::Function,
        name: "f".to_string(),
        text: "T".to_string(),
    })
    .unwrap();
    assert_eq!(done.object.unwrap().body, "T");
}
