//! What is relayed of a run: the diagnostics of the executing tool without
//! the location in front of each line, and the message of a failed run.

use vstd::prelude::*;
use vstd::string::StringExecFns;
use crate::numbers::{signed, signed_text};
use crate::text::{line_list, lines, string_of_range, to_chars};

verus! {

/// The number of characters of `s` before its first colon that a space
/// follows; the length of `s` where it has none.
pub open spec fn colon_offset(s: Seq<char>) -> nat
    decreases s.len(),
{
    if s.len() < 2 {
        s.len()
    } else if s[0] == ':' && s[1] == ' ' {
        0
    } else {
        1 + colon_offset(s.drop_first())
    }
}

/// A diagnostic line without its location: what follows the first colon and
/// space, and the whole line where it has none.
pub open spec fn without_location(line: Seq<char>) -> Seq<char> {
    if colon_offset(line) + 2 <= line.len() {
        line.skip(colon_offset(line) as int + 2)
    } else {
        line
    }
}

/// The diagnostics of a run, line by line, each without its location.
pub open spec fn relayed(stderr: Seq<char>) -> Seq<Seq<char>> {
    lines(stderr).map_values(|l: Seq<char>| without_location(l))
}

/// The message of a run that failed with the given exit code; a run that was
/// ended without one counts as `-1`.
pub open spec fn failure_text(code: Option<i32>) -> Seq<char> {
    "psql command failed with exit code: "@ + signed(
        match code {
            Some(c) => c as int,
            None => -1,
        },
    )
}

proof fn lemma_colon_offset_is(s: Seq<char>, k: int)
    requires
        0 <= k <= s.len(),
        forall|i: int| 0 <= i < k && i + 1 < s.len() ==> !(#[trigger] s[i] == ':' && s[i + 1] == ' '),
        k + 1 < s.len() ==> s[k] == ':' && s[k + 1] == ' ',
        k + 1 >= s.len() ==> k == s.len(),
    ensures
        colon_offset(s) == k,
    decreases s.len(),
{
    if s.len() >= 2 && k > 0 {
        let t = s.drop_first();
        assert(!(s[0] == ':' && s[1] == ' '));
        assert forall|i: int| 0 <= i < k - 1 && i + 1 < t.len() implies !(#[trigger] t[i] == ':'
            && t[i + 1] == ' ') by {
            assert(t[i] == s[i + 1]);
            assert(t[i + 1] == s[i + 2]);
            assert(!(s[i + 1] == ':' && s[i + 2] == ' '));
        }
        lemma_colon_offset_is(t, k - 1);
    }
}

/// Takes the location off a diagnostic line.
pub fn strip_location(line: &str) -> (out: String)
    ensures
        out@ == without_location(line@),
{
    let v = to_chars(line);
    if v.len() < 2 {
        proof {
            lemma_colon_offset_is(v@, v.len() as int);
        }
        return line.to_owned();
    }
    let last: usize = v.len() - 1;
    let mut k: usize = 0;
    while k < last && !(v[k] == ':' && v[k + 1] == ' ')
        invariant
            k <= last,
            last + 1 == v.len(),
            forall|i: int|
                0 <= i < k && i + 1 < v.len() ==> !(#[trigger] v@[i] == ':' && v@[i + 1] == ' '),
        decreases last - k,
    {
        k += 1;
    }
    if k < last {
        proof {
            lemma_colon_offset_is(v@, k as int);
            assert(v@.subrange(k + 2, v.len() as int) =~= v@.skip(k + 2));
        }
        string_of_range(&v, k + 2, v.len())
    } else {
        proof {
            lemma_colon_offset_is(v@, v.len() as int);
        }
        line.to_owned()
    }
}

/// The diagnostics of a run as they are shown.
pub fn relay(stderr: &str) -> (out: Vec<String>)
    ensures
        out@.map_values(|l: String| l@) == relayed(stderr@),
{
    let all = line_list(stderr);
    let ghost view_of = |l: String| l@;
    let ghost strip = |l: Seq<char>| without_location(l);
    let ghost source = all@.map_values(view_of);
    let mut out: Vec<String> = Vec::new();
    let mut i: usize = 0;
    assert(out@.map_values(view_of) =~= source.take(0).map_values(strip));
    while i < all.len()
        invariant
            i <= all.len(),
            view_of == (|l: String| l@),
            strip == (|l: Seq<char>| without_location(l)),
            source == all@.map_values(view_of),
            out@.map_values(view_of) == source.take(i as int).map_values(strip),
        decreases all.len() - i,
    {
        let ghost before = out@.map_values(view_of);
        let line = strip_location(all[i].as_str());
        out.push(line);
        proof {
            assert(source[i as int] == all@[i as int]@);
            assert(source.take(i + 1) =~= source.take(i as int).push(source[i as int]));
            assert(out@.map_values(view_of) =~= before.push(strip(source[i as int])));
            assert(source.take(i as int).push(source[i as int]).map_values(strip) =~= before.push(
                strip(source[i as int]),
            ));
        }
        i += 1;
    }
    assert(source.take(all.len() as int) =~= source);
    out
}

/// The message of a run that failed.
pub fn execution_failure(code: Option<i32>) -> (text: String)
    ensures
        text@ == failure_text(code),
{
    let number = match code {
        Some(c) => signed_text(c),
        None => signed_text(-1),
    };
    let mut text = "psql command failed with exit code: ".to_owned();
    text.append(number.as_str());
    text
}

} // verus!
