//! The seed script: every seed file's text, in ascending order of file name,
//! inside one block. Seeds are not recorded; running the script again runs
//! them again.

use vstd::prelude::*;
use vstd::string::StringExecFns;
use crate::artifact::{
    file_stem, file_views, sort_sql_files, sorted_sql_files, stem, FileView, SourceFile,
};

verus! {

/// The text of one seed file's block.
pub open spec fn seed_block_text(dir: Seq<char>, file: FileView) -> Seq<char> {
    "-- RUN "@ + dir + "/"@ + stem(file.file_name) + " --\n"@ + file.content + "\n"@
        + "RAISE NOTICE '✅ Applied seed: "@ + stem(file.file_name) + "';\n"@ + "-- DONE "@ + dir
        + "/"@ + stem(file.file_name) + " --\n"@
}

/// The blocks of the given files, in the order given.
pub open spec fn seed_blocks_text(dir: Seq<char>, files: Seq<FileView>) -> Seq<char>
    decreases files.len(),
{
    if files.len() == 0 {
        Seq::empty()
    } else {
        seed_blocks_text(dir, files.drop_last()) + seed_block_text(dir, files.last())
    }
}

/// The blocks of the seed files of a directory, in ascending order of file
/// name.
pub open spec fn seed_directory_text(dir: Seq<char>, files: Seq<FileView>) -> Seq<char> {
    seed_blocks_text(dir, sorted_sql_files(files))
}

/// The seed script of an artifact root whose `seeds` directory holds `files`.
pub open spec fn seed_text(root: Seq<char>, files: Seq<FileView>) -> Seq<char> {
    "DO $pgm_seed$ BEGIN "@ + "SET LOCAL client_min_messages=NOTICE;"@ + seed_directory_text(
        root + "/seeds"@,
        files,
    ) + "END $pgm_seed$;"@
}

fn render_seed_block(dir: &str, file: &SourceFile) -> (out: String)
    ensures
        out@ == seed_block_text(dir@, file@),
{
    let name = file_stem(file.file_name.as_str());
    let mut out = "-- RUN ".to_owned();
    out.append(dir);
    out.append("/");
    out.append(name.as_str());
    out.append(" --\n");
    out.append(file.content.as_str());
    out.append("\n");
    out.append("RAISE NOTICE '✅ Applied seed: ");
    out.append(name.as_str());
    out.append("';\n");
    out.append("-- DONE ");
    out.append(dir);
    out.append("/");
    out.append(name.as_str());
    out.append(" --\n");
    out
}

/// Compiles the seed files of one directory into text.
pub fn process_seed_directory(full_dir_path: &str, files: &Vec<SourceFile>) -> (sql: String)
    ensures
        sql@ == seed_directory_text(full_dir_path@, file_views(files@)),
{
    let sorted = sort_sql_files(files);
    let ghost all = file_views(sorted@);
    let mut sql = String::new();
    let mut i: usize = 0;
    assert(all.take(0) =~= Seq::empty());
    while i < sorted.len()
        invariant
            i <= sorted.len(),
            all == file_views(sorted@),
            sql@ == seed_blocks_text(full_dir_path@, all.take(i as int)),
        decreases sorted.len() - i,
    {
        let block = render_seed_block(full_dir_path, &sorted[i]);
        sql.append(block.as_str());
        proof {
            let next = all.take(i + 1);
            assert(next.drop_last() =~= all.take(i as int));
            assert(next.last() == sorted@[i as int]@);
        }
        i += 1;
    }
    assert(all.take(sorted.len() as int) =~= all);
    sql
}

/// Compiles the seed script of the artifact root `pgm_dir_path`, whose
/// `seeds` directory holds `files`.
pub fn seed(pgm_dir_path: &str, files: &Vec<SourceFile>) -> (sql: String)
    ensures
        sql@ == seed_text(pgm_dir_path@, file_views(files@)),
{
    let mut seeds_dir = pgm_dir_path.to_owned();
    seeds_dir.append("/seeds");
    let blocks = process_seed_directory(seeds_dir.as_str(), files);
    let mut sql = "DO $pgm_seed$ BEGIN ".to_owned();
    sql.append("SET LOCAL client_min_messages=NOTICE;");
    sql.append(blocks.as_str());
    sql.append("END $pgm_seed$;");
    sql
}

} // verus!
