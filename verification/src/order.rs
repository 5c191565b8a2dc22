//! Facts about the order in which artifact files are compiled: the order on
//! names is a total order, the compiled order is ascending, and it does not
//! depend on the order in which a directory was listed.

use vstd::prelude::*;
use vstd::seq_lib::{to_multiset_build, to_multiset_contains, to_multiset_insert, to_multiset_len, to_multiset_remove};
use crate::artifact::{
    insert_by_name, is_sql_file, lemma_insert_position, lex_le, sorted_sql_files, FileView,
};

verus! {

/// Every name is at most itself.
pub proof fn lemma_lex_le_reflexive(a: Seq<char>)
    ensures
        lex_le(a, a),
    decreases a.len(),
{
    if a.len() > 0 {
        lemma_lex_le_reflexive(a.drop_first());
    }
}

/// Of two names one is at most the other.
pub proof fn lemma_lex_le_total(a: Seq<char>, b: Seq<char>)
    ensures
        lex_le(a, b) || lex_le(b, a),
    decreases a.len(),
{
    if a.len() > 0 && b.len() > 0 && a[0] == b[0] {
        lemma_lex_le_total(a.drop_first(), b.drop_first());
    }
}

/// Two names each at most the other are the same name.
pub proof fn lemma_lex_le_antisymmetric(a: Seq<char>, b: Seq<char>)
    requires
        lex_le(a, b),
        lex_le(b, a),
    ensures
        a == b,
    decreases a.len(),
{
    if a.len() == 0 || b.len() == 0 {
        assert(a =~= b);
    } else {
        lemma_lex_le_antisymmetric(a.drop_first(), b.drop_first());
        assert(a =~= seq![a[0]] + a.drop_first());
        assert(b =~= seq![b[0]] + b.drop_first());
    }
}

/// The order on names is transitive.
pub proof fn lemma_lex_le_transitive(a: Seq<char>, b: Seq<char>, c: Seq<char>)
    requires
        lex_le(a, b),
        lex_le(b, c),
    ensures
        lex_le(a, c),
    decreases a.len(),
{
    if a.len() > 0 && b.len() > 0 && c.len() > 0 && a[0] == b[0] && b[0] == c[0] {
        lemma_lex_le_transitive(a.drop_first(), b.drop_first(), c.drop_first());
    }
}

/// The files stand in ascending order of file name.
pub open spec fn ascending(files: Seq<FileView>) -> bool {
    forall|i: int, j: int|
        0 <= i < j < files.len() ==> lex_le(
            (#[trigger] files[i]).file_name,
            (#[trigger] files[j]).file_name,
        )
}

/// No two files of the list have the same name.
pub open spec fn distinct_names(files: Seq<FileView>) -> bool {
    forall|i: int, j: int|
        0 <= i < j < files.len() ==> (#[trigger] files[i]).file_name != (
        #[trigger] files[j]).file_name
}

/// Where `insert_by_name` puts a file.
pub open spec fn insert_position(sorted: Seq<FileView>, file: FileView) -> int
    decreases sorted.len(),
{
    if sorted.len() == 0 {
        0
    } else if lex_le(sorted.last().file_name, file.file_name) {
        sorted.len() as int
    } else {
        insert_position(sorted.drop_last(), file)
    }
}

/// `insert_by_name` puts the file at one position and moves nothing else; in
/// an ascending list the result is ascending.
pub proof fn lemma_insert_by_name(sorted: Seq<FileView>, file: FileView)
    ensures
        0 <= insert_position(sorted, file) <= sorted.len(),
        insert_by_name(sorted, file) == sorted.insert(insert_position(sorted, file), file),
        ascending(sorted) ==> ascending(insert_by_name(sorted, file)),
    decreases sorted.len(),
{
    let p = insert_position(sorted, file);
    lemma_position_bounds(sorted, file);
    lemma_insert_position(sorted, file, p);
    if ascending(sorted) {
        let out = sorted.insert(p, file);
        assert forall|i: int, j: int| 0 <= i < j < out.len() implies lex_le(
            (#[trigger] out[i]).file_name,
            (#[trigger] out[j]).file_name,
        ) by {
            if j < p {
                assert(out[i] == sorted[i] && out[j] == sorted[j]);
            } else if j == p {
                assert(out[i] == sorted[i]);
                if i < p - 1 {
                    lemma_lex_le_transitive(
                        sorted[i].file_name,
                        sorted[p - 1].file_name,
                        file.file_name,
                    );
                }
            } else if i == p {
                assert(out[j] == sorted[j - 1]);
                lemma_lex_le_total(sorted[j - 1].file_name, file.file_name);
            } else if i < p {
                assert(out[i] == sorted[i] && out[j] == sorted[j - 1]);
            } else {
                assert(out[i] == sorted[i - 1] && out[j] == sorted[j - 1]);
            }
        }
    }
}

/// The position lies behind every file whose name is not greater and before
/// every other file.
pub proof fn lemma_position_bounds(sorted: Seq<FileView>, file: FileView)
    ensures
        0 <= insert_position(sorted, file) <= sorted.len(),
        forall|i: int|
            insert_position(sorted, file) <= i < sorted.len() ==> !lex_le(
                (#[trigger] sorted[i]).file_name,
                file.file_name,
            ),
        insert_position(sorted, file) > 0 ==> lex_le(
            sorted[insert_position(sorted, file) - 1].file_name,
            file.file_name,
        ),
    decreases sorted.len(),
{
    if sorted.len() > 0 && !lex_le(sorted.last().file_name, file.file_name) {
        let shorter = sorted.drop_last();
        lemma_position_bounds(shorter, file);
        let p = insert_position(shorter, file);
        assert forall|i: int| p <= i < sorted.len() implies !lex_le(
            (#[trigger] sorted[i]).file_name,
            file.file_name,
        ) by {
            if i < shorter.len() {
                assert(sorted[i] == shorter[i]);
            }
        }
        if p > 0 {
            assert(sorted[p - 1] == shorter[p - 1]);
        }
    }
}

/// The compiled order is ascending, and it holds each artifact file of the
/// directory as often as the directory lists it, and nothing else.
pub proof fn lemma_sorted_sql_files(files: Seq<FileView>)
    ensures
        ascending(sorted_sql_files(files)),
        forall|x: FileView| #[trigger]
            sorted_sql_files(files).to_multiset().count(x) == if is_sql_file(x.file_name) {
                files.to_multiset().count(x)
            } else {
                0
            },
    decreases files.len(),
{
    if files.len() == 0 {
        assert forall|x: FileView| #[trigger]
            sorted_sql_files(files).to_multiset().count(x) == if is_sql_file(x.file_name) {
                files.to_multiset().count(x)
            } else {
                0
            } by {
            to_multiset_contains(sorted_sql_files(files), x);
            to_multiset_contains(files, x);
        }
    } else {
        let earlier = files.drop_last();
        let last = files.last();
        let before = sorted_sql_files(earlier);
        lemma_sorted_sql_files(earlier);
        assert(files =~= earlier.push(last));
        to_multiset_build(earlier, last);
        if is_sql_file(last.file_name) {
            lemma_insert_by_name(before, last);
            to_multiset_insert(before, insert_position(before, last), last);
        }
        assert forall|x: FileView| #[trigger]
            sorted_sql_files(files).to_multiset().count(x) == if is_sql_file(x.file_name) {
                files.to_multiset().count(x)
            } else {
                0
            } by {
            assert(before.to_multiset().count(x) == if is_sql_file(x.file_name) {
                earlier.to_multiset().count(x)
            } else {
                0
            });
        }
    }
}

/// Every file of the compiled order is an artifact file of the directory,
/// and every artifact file of the directory is in the compiled order.
pub proof fn lemma_sorted_members(files: Seq<FileView>, x: FileView)
    ensures
        sorted_sql_files(files).contains(x) <==> files.contains(x) && is_sql_file(x.file_name),
{
    lemma_sorted_sql_files(files);
    to_multiset_contains(sorted_sql_files(files), x);
    to_multiset_contains(files, x);
    assert(sorted_sql_files(files).to_multiset().count(x) == if is_sql_file(x.file_name) {
        files.to_multiset().count(x)
    } else {
        0
    });
}

/// A directory without two files of one name compiles to an order without
/// two files of one name.
pub proof fn lemma_sorted_distinct(files: Seq<FileView>)
    requires
        distinct_names(files),
    ensures
        distinct_names(sorted_sql_files(files)),
    decreases files.len(),
{
    if files.len() > 0 {
        let earlier = files.drop_last();
        let last = files.last();
        let before = sorted_sql_files(earlier);
        assert forall|i: int, j: int| 0 <= i < j < earlier.len() implies (
        #[trigger] earlier[i]).file_name != (#[trigger] earlier[j]).file_name by {
            assert(earlier[i] == files[i] && earlier[j] == files[j]);
        }
        lemma_sorted_distinct(earlier);
        if is_sql_file(last.file_name) {
            lemma_insert_by_name(before, last);
            let p = insert_position(before, last);
            let out = before.insert(p, last);
            assert forall|k: int| 0 <= k < before.len() implies (
            #[trigger] before[k]).file_name != last.file_name by {
                lemma_sorted_members(earlier, before[k]);
                assert(before.contains(before[k]));
                let m = choose|m: int| 0 <= m < earlier.len() && earlier[m] == before[k];
                assert(files[m] == before[k]);
                assert(files[files.len() - 1] == last);
            }
            assert forall|i: int, j: int| 0 <= i < j < out.len() implies (
            #[trigger] out[i]).file_name != (#[trigger] out[j]).file_name by {
                if i == p {
                    assert(out[j] == before[j - 1]);
                } else if j == p {
                    assert(out[i] == before[i]);
                } else if j < p {
                    assert(out[i] == before[i] && out[j] == before[j]);
                } else if i < p {
                    assert(out[i] == before[i] && out[j] == before[j - 1]);
                } else {
                    assert(out[i] == before[i - 1] && out[j] == before[j - 1]);
                }
            }
        }
    }
}

/// Two ascending lists of the same files, no two of one name, are the same
/// list.
pub proof fn lemma_ascending_is_unique(x: Seq<FileView>, y: Seq<FileView>)
    requires
        ascending(x),
        ascending(y),
        distinct_names(x),
        x.to_multiset() == y.to_multiset(),
    ensures
        x == y,
    decreases x.len(),
{
    to_multiset_len(x);
    to_multiset_len(y);
    if x.len() == 0 {
        assert(x =~= y);
    } else {
        to_multiset_contains(x, x[0]);
        to_multiset_contains(y, x[0]);
        to_multiset_contains(x, y[0]);
        to_multiset_contains(y, y[0]);
        assert(x.contains(x[0]));
        assert(y.contains(y[0]));
        let i = choose|i: int| 0 <= i < y.len() && y[i] == x[0];
        let j = choose|j: int| 0 <= j < x.len() && x[j] == y[0];
        if j > 0 {
            assert(lex_le(x[0].file_name, x[j].file_name));
            if i > 0 {
                assert(lex_le(y[0].file_name, y[i].file_name));
            } else {
                lemma_lex_le_reflexive(y[0].file_name);
            }
            lemma_lex_le_antisymmetric(x[0].file_name, x[j].file_name);
        }
        assert(x[0] == y[0]);
        let xs = x.drop_first();
        let ys = y.drop_first();
        assert(xs =~= x.remove(0));
        assert(ys =~= y.remove(0));
        to_multiset_remove(x, 0);
        to_multiset_remove(y, 0);
        assert forall|a: int, b: int| 0 <= a < b < xs.len() implies lex_le(
            (#[trigger] xs[a]).file_name,
            (#[trigger] xs[b]).file_name,
        ) && xs[a].file_name != xs[b].file_name by {
            assert(xs[a] == x[a + 1] && xs[b] == x[b + 1]);
        }
        assert forall|a: int, b: int| 0 <= a < b < ys.len() implies lex_le(
            (#[trigger] ys[a]).file_name,
            (#[trigger] ys[b]).file_name,
        ) by {
            assert(ys[a] == y[a + 1] && ys[b] == y[b + 1]);
        }
        lemma_ascending_is_unique(xs, ys);
        assert(x =~= seq![x[0]] + xs);
        assert(y =~= seq![y[0]] + ys);
    }
}

/// Files compile in ascending order of file name, in whatever order the
/// directory was listed: two listings of the same files, no two of one name,
/// compile to the same order.
pub proof fn law_listing_order_is_immaterial(a: Seq<FileView>, b: Seq<FileView>)
    requires
        distinct_names(a),
        a.to_multiset() == b.to_multiset(),
    ensures
        ascending(sorted_sql_files(a)),
        sorted_sql_files(a) == sorted_sql_files(b),
{
    lemma_sorted_sql_files(a);
    lemma_sorted_sql_files(b);
    lemma_sorted_distinct(a);
    let x = sorted_sql_files(a);
    let y = sorted_sql_files(b);
    assert forall|f: FileView| x.to_multiset().count(f) == y.to_multiset().count(f) by {
        assert(x.to_multiset().count(f) == if is_sql_file(f.file_name) {
            a.to_multiset().count(f)
        } else {
            0
        });
        assert(y.to_multiset().count(f) == if is_sql_file(f.file_name) {
            b.to_multiset().count(f)
        } else {
            0
        });
    }
    assert(x.to_multiset() =~= y.to_multiset());
    lemma_ascending_is_unique(x, y);
}

} // verus!
