//! Artifact files as the compiler sees them: a file name and a text, grouped
//! by directory, selected by extension and ordered by name.

use vstd::prelude::*;
use crate::text::{char_code, ends_with, ends_with_chars, string_of_range, to_chars};

verus! {

/// The reserved file name of the bootstrap migration.
pub const INITIAL_MIGRATION_FILE_NAME: &'static str = "00000.sql";

/// The reserved file name of the bootstrap migration, as a sequence.
pub open spec fn bootstrap_file_name() -> Seq<char> {
    INITIAL_MIGRATION_FILE_NAME@
}

/// The extension, dot included, that marks an artifact file.
pub open spec fn sql_suffix() -> Seq<char> {
    ".sql"@
}

/// An artifact file is named by a non-empty stem followed by `.sql`.
pub open spec fn is_sql_file(file_name: Seq<char>) -> bool {
    file_name.len() > sql_suffix().len() && ends_with(file_name, sql_suffix())
}

/// The name under which an artifact is recorded: its file name without the
/// `.sql` extension. A name that does not mark an artifact file is its own
/// stem.
pub open spec fn stem(file_name: Seq<char>) -> Seq<char> {
    if is_sql_file(file_name) {
        file_name.take(file_name.len() - sql_suffix().len())
    } else {
        file_name
    }
}

/// Lexicographic order on texts, character by character; a proper prefix
/// comes first.
pub open spec fn lex_le(a: Seq<char>, b: Seq<char>) -> bool
    decreases a.len(),
{
    if a.len() == 0 {
        true
    } else if b.len() == 0 {
        false
    } else if a[0] != b[0] {
        (a[0] as int) < (b[0] as int)
    } else {
        lex_le(a.drop_first(), b.drop_first())
    }
}

/// The three hash-gated categories of schema objects.
#[derive(Clone, Copy, Debug, PartialEq, Eq, Structural)]
pub enum Category {
    Function,
    Trigger,
    View,
}

impl Category {
    /// The tracking table that records the hashes of this category.
    pub open spec fn table(self) -> Seq<char> {
        match self {
            Category::Function => "pgm_function"@,
            Category::Trigger => "pgm_trigger"@,
            Category::View => "pgm_view"@,
        }
    }

    /// The directory, below the root, that holds this category's files.
    pub open spec fn folder(self) -> Seq<char> {
        match self {
            Category::Function => "functions"@,
            Category::Trigger => "triggers"@,
            Category::View => "views"@,
        }
    }

    /// The name of the tracking table of this category.
    pub fn table_name(self) -> (name: &'static str)
        ensures
            name@ == self.table(),
    {
        match self {
            Category::Function => "pgm_function",
            Category::Trigger => "pgm_trigger",
            Category::View => "pgm_view",
        }
    }

    /// The name of the directory of this category.
    pub fn folder_name(self) -> (name: &'static str)
        ensures
            name@ == self.folder(),
    {
        match self {
            Category::Function => "functions",
            Category::Trigger => "triggers",
            Category::View => "views",
        }
    }
}

/// One file of an artifact directory.
#[derive(Debug, PartialEq, Eq)]
pub struct SourceFile {
    /// The name of the file within its directory, extension included.
    pub file_name: String,
    /// The text of the file.
    pub content: String,
}

/// What a `SourceFile` is in contracts.
pub struct FileView {
    pub file_name: Seq<char>,
    pub content: Seq<char>,
}

impl View for SourceFile {
    type V = FileView;

    open spec fn view(&self) -> FileView {
        FileView { file_name: self.file_name@, content: self.content@ }
    }
}

impl SourceFile {
    /// A file of the given name and text.
    pub fn new(file_name: &str, content: &str) -> (file: SourceFile)
        ensures
            file@.file_name == file_name@,
            file@.content == content@,
    {
        SourceFile { file_name: file_name.to_owned(), content: content.to_owned() }
    }

    /// A copy of this file.
    pub fn duplicate(&self) -> (file: SourceFile)
        ensures
            file@ == self@,
    {
        SourceFile { file_name: self.file_name.clone(), content: self.content.clone() }
    }
}

/// The views of a sequence of files, in order.
pub open spec fn file_views(files: Seq<SourceFile>) -> Seq<FileView> {
    files.map_values(|f: SourceFile| f@)
}

/// What was found under an artifact root: the root's path as the user gave
/// it, and the regular files of each of its four directories, in any order. A
/// directory that does not exist is an empty list.
#[derive(Debug, PartialEq, Eq)]
pub struct ArtifactTree {
    pub root: String,
    pub migrations: Vec<SourceFile>,
    pub functions: Vec<SourceFile>,
    pub triggers: Vec<SourceFile>,
    pub views: Vec<SourceFile>,
}

/// What an `ArtifactTree` is in contracts.
pub struct TreeView {
    pub root: Seq<char>,
    pub migrations: Seq<FileView>,
    pub functions: Seq<FileView>,
    pub triggers: Seq<FileView>,
    pub views: Seq<FileView>,
}

impl View for ArtifactTree {
    type V = TreeView;

    open spec fn view(&self) -> TreeView {
        TreeView {
            root: self.root@,
            migrations: file_views(self.migrations@),
            functions: file_views(self.functions@),
            triggers: file_views(self.triggers@),
            views: file_views(self.views@),
        }
    }
}

impl TreeView {
    /// The files of one category's directory.
    pub open spec fn directory(self, category: Category) -> Seq<FileView> {
        match category {
            Category::Function => self.functions,
            Category::Trigger => self.triggers,
            Category::View => self.views,
        }
    }
}

/// `sorted` with `file` put in after the last file whose name is not greater.
pub open spec fn insert_by_name(sorted: Seq<FileView>, file: FileView) -> Seq<FileView>
    decreases sorted.len(),
{
    if sorted.len() == 0 {
        seq![file]
    } else if lex_le(sorted.last().file_name, file.file_name) {
        sorted.push(file)
    } else {
        insert_by_name(sorted.drop_last(), file).push(sorted.last())
    }
}

/// The artifact files among `files`, in ascending order of file name; files
/// of the same name keep the order in which they were listed.
pub open spec fn sorted_sql_files(files: Seq<FileView>) -> Seq<FileView>
    decreases files.len(),
{
    if files.len() == 0 {
        Seq::empty()
    } else {
        let earlier = sorted_sql_files(files.drop_last());
        if is_sql_file(files.last().file_name) {
            insert_by_name(earlier, files.last())
        } else {
            earlier
        }
    }
}

/// Whether a file name marks an artifact file.
pub fn has_sql_extension(file_name: &str) -> (r: bool)
    ensures
        r == is_sql_file(file_name@),
{
    let name = to_chars(file_name);
    let suffix = to_chars(".sql");
    name.len() > suffix.len() && ends_with_chars(&name, &suffix)
}

/// The name under which an artifact file is recorded.
pub fn file_stem(file_name: &str) -> (r: String)
    ensures
        r@ == stem(file_name@),
{
    let name = to_chars(file_name);
    let suffix = to_chars(".sql");
    if name.len() > suffix.len() && ends_with_chars(&name, &suffix) {
        string_of_range(&name, 0, name.len() - suffix.len())
    } else {
        file_name.to_owned()
    }
}

/// Whether `a` comes before `b`, or is equal to it, in lexicographic order.
pub fn name_le(a: &str, b: &str) -> (r: bool)
    ensures
        r == lex_le(a@, b@),
{
    let x = to_chars(a);
    let y = to_chars(b);
    let mut i: usize = 0;
    assert(x@.skip(0) == x@ && y@.skip(0) == y@);
    while i < x.len() && i < y.len()
        invariant
            i <= x.len(),
            i <= y.len(),
            x@ == a@,
            y@ == b@,
            lex_le(x@, y@) == lex_le(x@.skip(i as int), y@.skip(i as int)),
        decreases x.len() - i,
    {
        let c: char = x[i];
        let d: char = y[i];
        proof {
            assert(x@.skip(i as int)[0] == c);
            assert(y@.skip(i as int)[0] == d);
            assert(x@.skip(i as int).drop_first() == x@.skip(i + 1));
            assert(y@.skip(i as int).drop_first() == y@.skip(i + 1));
        }
        if c != d {
            return char_code(c) < char_code(d);
        }
        i += 1;
    }
    i == x.len()
}

/// The position at which `insert_by_name` puts a file: behind every file
/// whose name is not greater than the new one.
pub proof fn lemma_insert_position(sorted: Seq<FileView>, file: FileView, p: int)
    requires
        0 <= p <= sorted.len(),
        forall|i: int| p <= i < sorted.len() ==> !lex_le(#[trigger] sorted[i].file_name, file.file_name),
        p > 0 ==> lex_le(sorted[p - 1].file_name, file.file_name),
    ensures
        insert_by_name(sorted, file) == sorted.insert(p, file),
    decreases sorted.len(),
{
    if sorted.len() == 0 {
        assert(seq![file] =~= sorted.insert(p, file));
    } else if p == sorted.len() {
        assert(sorted.push(file) =~= sorted.insert(p, file));
    } else {
        assert(!lex_le(sorted[sorted.len() - 1].file_name, file.file_name));
        let shorter = sorted.drop_last();
        assert forall|i: int| p <= i < shorter.len() implies !lex_le(
            #[trigger] shorter[i].file_name,
            file.file_name,
        ) by {
            assert(shorter[i] == sorted[i]);
        }
        lemma_insert_position(shorter, file, p);
        assert(shorter.insert(p, file).push(sorted.last()) =~= sorted.insert(p, file));
    }
}

/// Selects the artifact files of a directory and puts them in ascending order
/// of file name.
pub fn sort_sql_files(files: &Vec<SourceFile>) -> (sorted: Vec<SourceFile>)
    ensures
        file_views(sorted@) == sorted_sql_files(file_views(files@)),
{
    let mut sorted: Vec<SourceFile> = Vec::new();
    let mut i: usize = 0;
    assert(file_views(files@).take(0) =~= Seq::empty());
    assert(file_views(sorted@) =~= Seq::empty());
    while i < files.len()
        invariant
            i <= files.len(),
            file_views(sorted@) == sorted_sql_files(file_views(files@).take(i as int)),
        decreases files.len() - i,
    {
        let ghost before = file_views(sorted@);
        let ghost listed = file_views(files@).take(i + 1);
        proof {
            assert(listed.drop_last() =~= file_views(files@).take(i as int));
            assert(listed.last() == files@[i as int]@);
        }
        let file = &files[i];
        if has_sql_extension(file.file_name.as_str()) {
            let mut p: usize = sorted.len();
            while p > 0 && !name_le(sorted[p - 1].file_name.as_str(), file.file_name.as_str())
                invariant
                    p <= sorted.len(),
                    file_views(sorted@) == before,
                    forall|k: int|
                        p <= k < sorted.len() ==> !lex_le(
                            #[trigger] before[k].file_name,
                            file@.file_name,
                        ),
                decreases p,
            {
                p -= 1;
            }
            proof {
                lemma_insert_position(before, file@, p as int);
            }
            sorted.insert(p, file.duplicate());
            assert(file_views(sorted@) =~= before.insert(p as int, file@));
        }
        i += 1;
    }
    assert(file_views(files@).take(files.len() as int) =~= file_views(files@));
    sorted
}

} // verus!
