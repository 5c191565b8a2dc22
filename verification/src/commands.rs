//! What the commands decide: which script `apply` hands on and whether it is
//! shown or run, and which directories and files `init` lays out.

use vstd::prelude::*;
use vstd::string::StringExecFns;
use crate::artifact::{ArtifactTree, TreeView, INITIAL_MIGRATION_FILE_NAME};
use crate::dump::{ObjectView, ParseErrorKind, SqlObject};
use crate::extract::{extract, extraction, object_views, ExtractionView, ParseError};
use crate::fake::{build_fake, fake_text};
use crate::numbers::{decimal, push_decimal};
use crate::script::{build, build_text};
use crate::text::string_of;

verus! {

/// What is to be done with a compiled script.
#[derive(Debug, PartialEq, Eq)]
pub enum ApplyAction {
    /// Show the script and run nothing.
    Print(String),
    /// Run the script against the database.
    Execute(String),
}

/// The script that `apply` compiles: the bookkeeping-only script where that
/// was asked for, else the full script, with its comments where it is only
/// shown and without them where it is run.
pub open spec fn apply_text(tree: TreeView, dry_run: bool, fake: bool) -> Seq<char> {
    if fake {
        fake_text(tree)
    } else {
        build_text(tree, !dry_run)
    }
}

/// Compiles the script of a tree and says what is to be done with it.
pub fn apply(tree: &ArtifactTree, dry_run: bool, fake: bool) -> (action: ApplyAction)
    ensures
        match action {
            ApplyAction::Print(sql) => dry_run && sql@ == apply_text(tree@, dry_run, fake),
            ApplyAction::Execute(sql) => !dry_run && sql@ == apply_text(tree@, dry_run, fake),
        },
{
    let sql = if fake {
        build_fake(tree)
    } else {
        build(tree, !dry_run)
    };
    if dry_run {
        ApplyAction::Print(sql)
    } else {
        ApplyAction::Execute(sql)
    }
}

/// A file to be written: its path and its text.
#[derive(Debug, PartialEq, Eq)]
pub struct PlannedFile {
    pub path: String,
    pub content: String,
}

/// What a `PlannedFile` is in contracts.
pub struct PlannedFileView {
    pub path: Seq<char>,
    pub content: Seq<char>,
}

impl View for PlannedFile {
    type V = PlannedFileView;

    open spec fn view(&self) -> PlannedFileView {
        PlannedFileView { path: self.path@, content: self.content@ }
    }
}

/// What `init` lays out: the directories to create, in order, and the files
/// to write into them.
#[derive(Debug, PartialEq, Eq)]
pub struct InitPlan {
    pub directories: Vec<String>,
    pub files: Vec<PlannedFile>,
}

/// The directories of an artifact root, the root first.
pub open spec fn root_directories(root: Seq<char>) -> Seq<Seq<char>> {
    seq![
        root,
        root + "/migrations"@,
        root + "/triggers"@,
        root + "/views"@,
        root + "/functions"@,
    ]
}

/// The path of the bootstrap migration below a root.
pub open spec fn bootstrap_path(root: Seq<char>) -> Seq<char> {
    root + "/migrations/"@ + INITIAL_MIGRATION_FILE_NAME@
}

/// The path of an object's file below a root: the folder of its category,
/// then its name with the artifact extension.
pub open spec fn object_path(root: Seq<char>, object: ObjectView) -> Seq<char> {
    root + "/"@ + object.category.folder() + "/"@ + object.name + ".sql"@
}

/// The file of an object below a root.
pub open spec fn object_file(root: Seq<char>, object: ObjectView) -> PlannedFileView {
    PlannedFileView { path: object_path(root, object), content: object.body }
}

/// The files that an extraction gives: the bootstrap migration, then every
/// object in the order of the extraction.
pub open spec fn planned_files(root: Seq<char>, x: ExtractionView) -> Seq<PlannedFileView> {
    seq![PlannedFileView { path: bootstrap_path(root), content: x.bootstrap }]
        + x.objects.map_values(|o: ObjectView| object_file(root, o))
}

/// The files that `init` writes: none for a fresh root, and for a root made
/// from a dump the files that the dump's extraction gives.
pub open spec fn init_files(root: Seq<char>, existing_db: bool, dump: Seq<char>) -> Result<
    Seq<PlannedFileView>,
    ParseError,
> {
    if !existing_db {
        Ok(Seq::empty())
    } else {
        match extraction(dump) {
            Ok(x) => Ok(planned_files(root, x)),
            Err(e) => Err(e),
        }
    }
}

/// Whether a result of `init` is the one that the contract names.
pub open spec fn is_init_plan(
    r: Result<InitPlan, ParseError>,
    root: Seq<char>,
    existing_db: bool,
    dump: Seq<char>,
) -> bool {
    match r {
        Ok(plan) => plan.directories@.map_values(|d: String| d@) == root_directories(root)
            && init_files(root, existing_db, dump) == Ok::<Seq<PlannedFileView>, ParseError>(
            plan.files@.map_values(|f: PlannedFile| f@),
        ),
        Err(e) => init_files(root, existing_db, dump) == Err::<Seq<PlannedFileView>, ParseError>(
            e,
        ),
    }
}

fn subdirectory(root: &str, name: &str) -> (dir: String)
    ensures
        dir@ == root@ + name@,
{
    let mut dir = root.to_owned();
    dir.append(name);
    dir
}

fn plan_object(root: &str, object: &SqlObject) -> (file: PlannedFile)
    ensures
        file@ == object_file(root@, object@),
{
    let mut path = root.to_owned();
    path.append("/");
    path.append(object.category.folder_name());
    path.append("/");
    path.append(object.name.as_str());
    path.append(".sql");
    PlannedFile { path, content: object.body.clone() }
}

/// Lays out a new artifact root. A fresh root has its five directories and no
/// file. With `existing_db` the root is made from `dump`: the dump's objects
/// go to the folders of their categories and what is left of the dump
/// becomes the bootstrap migration; a dump that leaves a statement
/// unfinished is refused.
pub fn init(pgm_dir_path: &str, existing_db: bool, dump: &str) -> (r: Result<InitPlan, ParseError>)
    ensures
        is_init_plan(r, pgm_dir_path@, existing_db, dump@),
{
    let mut directories: Vec<String> = Vec::new();
    directories.push(pgm_dir_path.to_owned());
    directories.push(subdirectory(pgm_dir_path, "/migrations"));
    directories.push(subdirectory(pgm_dir_path, "/triggers"));
    directories.push(subdirectory(pgm_dir_path, "/views"));
    directories.push(subdirectory(pgm_dir_path, "/functions"));
    assert(directories@.map_values(|d: String| d@) =~= root_directories(pgm_dir_path@));
    let mut files: Vec<PlannedFile> = Vec::new();
    let ghost view_of = |f: PlannedFile| f@;
    if !existing_db {
        assert(files@.map_values(view_of) =~= Seq::empty());
        return Ok(InitPlan { directories, files });
    }
    match extract(dump) {
        Err(e) => Err(e),
        Ok(x) => {
            let mut path = pgm_dir_path.to_owned();
            path.append("/migrations/");
            path.append(INITIAL_MIGRATION_FILE_NAME);
            files.push(PlannedFile { path, content: x.bootstrap.clone() });
            let ghost first = files@.map_values(view_of);
            let ghost objects = object_views(x.objects@);
            let ghost make = |o: ObjectView| object_file(pgm_dir_path@, o);
            let mut i: usize = 0;
            assert(files@.map_values(view_of) =~= first + objects.take(0).map_values(make));
            while i < x.objects.len()
                invariant
                    i <= x.objects.len(),
                    view_of == (|f: PlannedFile| f@),
                    make == (|o: ObjectView| object_file(pgm_dir_path@, o)),
                    objects == object_views(x.objects@),
                    files@.map_values(view_of) == first + objects.take(i as int).map_values(make),
                decreases x.objects.len() - i,
            {
                let ghost before = files@.map_values(view_of);
                let file = plan_object(pgm_dir_path, &x.objects[i]);
                files.push(file);
                proof {
                    assert(objects[i as int] == x.objects@[i as int]@);
                    assert(objects.take(i + 1) =~= objects.take(i as int).push(objects[i as int]));
                    assert(files@.map_values(view_of) =~= before.push(make(objects[i as int])));
                    assert(first + objects.take(i as int).push(objects[i as int]).map_values(make)
                        =~= before.push(make(objects[i as int])));
                }
                i += 1;
            }
            proof {
                assert(objects.take(x.objects.len() as int) =~= objects);
                assert(first =~= seq![
                    PlannedFileView {
                        path: bootstrap_path(pgm_dir_path@),
                        content: x@.bootstrap,
                    },
                ]);
            }
            Ok(InitPlan { directories, files })
        },
    }
}

/// What was missing, in words.
pub open spec fn kind_text(kind: ParseErrorKind) -> Seq<char> {
    match kind {
        ParseErrorKind::MissingName => "nothing names the object to create"@,
        ParseErrorKind::MissingReturns => "the function header has no RETURNS"@,
        ParseErrorKind::MissingReturnType => "nothing follows RETURNS"@,
        ParseErrorKind::MissingBody => "no dollar-quote opens the function body"@,
        ParseErrorKind::UnterminatedBody => "the dollar-quote of the function body is never closed"@,
        ParseErrorKind::UnterminatedView => "no semicolon ends the view"@,
    }
}

/// The message of a failure: where the unfinished statement begins, and what
/// was missing.
pub open spec fn error_text(e: ParseError) -> Seq<char> {
    "line "@ + decimal(e.line as nat) + ", character "@ + decimal(e.offset as nat) + ": "@
        + kind_text(e.kind)
}

/// Writes the message of a failure.
pub fn error_message(e: &ParseError) -> (text: String)
    ensures
        text@ == error_text(*e),
{
    let what = match e.kind {
        ParseErrorKind::MissingName => "nothing names the object to create",
        ParseErrorKind::MissingReturns => "the function header has no RETURNS",
        ParseErrorKind::MissingReturnType => "nothing follows RETURNS",
        ParseErrorKind::MissingBody => "no dollar-quote opens the function body",
        ParseErrorKind::UnterminatedBody => "the dollar-quote of the function body is never closed",
        ParseErrorKind::UnterminatedView => "no semicolon ends the view",
    };
    let mut line: Vec<char> = Vec::new();
    push_decimal(&mut line, e.line as u64);
    let mut offset: Vec<char> = Vec::new();
    push_decimal(&mut offset, e.offset as u64);
    assert(line@ =~= decimal(e.line as nat));
    assert(offset@ =~= decimal(e.offset as nat));
    let mut text = "line ".to_owned();
    text.append(string_of(&line).as_str());
    text.append(", character ");
    text.append(string_of(&offset).as_str());
    text.append(": ");
    text.append(what);
    text
}

} // verus!
