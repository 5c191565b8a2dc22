//! New artifacts: the name of the next migration or seed, and the first text
//! of a new function, trigger or view.

use vstd::prelude::*;
use vstd::string::StringExecFns;
use crate::artifact::{FileView, SourceFile};
use crate::numbers::{padded, padded_text, parse_number, parsed};
use crate::text::{
    char_code, eq_ignore_case, eq_ignore_case_chars, occurs_at_chars, push_range, string_of_range,
    to_chars,
};

verus! {

/// What stands in a template for the name of the new object.
pub const NAME_PLACEHOLDER: &'static str = "<name_placeholder>";

/// The number of characters of `s` before its first `.`.
pub open spec fn dot_offset(s: Seq<char>) -> nat
    decreases s.len(),
{
    if s.len() > 0 && s.first() != '.' {
        1 + dot_offset(s.drop_first())
    } else {
        0
    }
}

/// The number that a file name writes before its first `.`, if it writes
/// one.
pub open spec fn leading(name: Seq<char>) -> Option<int> {
    parsed(name.take(dot_offset(name) as int))
}

/// The number of the last file of a directory: the greatest number that one
/// of its names writes before its first `.`, and zero where none writes a
/// number above zero.
pub open spec fn last_number(names: Seq<Seq<char>>) -> int
    decreases names.len(),
{
    if names.len() == 0 {
        0
    } else {
        let earlier = last_number(names.drop_last());
        match leading(names.last()) {
            Some(n) => if n > earlier {
                n
            } else {
                earlier
            },
            None => earlier,
        }
    }
}

/// The name of the next file of a directory: one more than the number of the
/// last file, filled with zeros to five characters, with the artifact
/// extension. There is none where that number does not fit in 32 bits.
pub open spec fn next_name(names: Seq<Seq<char>>) -> Option<Seq<char>> {
    if last_number(names) + 1 > 0x7fff_ffff {
        None
    } else {
        Some(padded(last_number(names) + 1) + ".sql"@)
    }
}

/// Sequence numbers strictly increase: the number of the next file is
/// greater than every number that a name of the directory writes.
pub proof fn law_next_number_is_new(names: Seq<Seq<char>>, i: int)
    requires
        0 <= i < names.len(),
        leading(names[i]) is Some,
    ensures
        leading(names[i])->0 < last_number(names) + 1,
        last_number(names) >= 0,
    decreases names.len(),
{
    lemma_last_number_is_natural(names);
    if i < names.len() - 1 {
        assert(names.drop_last()[i] == names[i]);
        law_next_number_is_new(names.drop_last(), i);
    }
}

proof fn lemma_last_number_is_natural(names: Seq<Seq<char>>)
    ensures
        last_number(names) >= 0,
    decreases names.len(),
{
    if names.len() > 0 {
        lemma_last_number_is_natural(names.drop_last());
    }
}

/// The views of a sequence of names, in order.
pub open spec fn name_views(names: Seq<String>) -> Seq<Seq<char>> {
    names.map_values(|n: String| n@)
}

proof fn lemma_dot_offset_is(s: Seq<char>, k: int)
    requires
        0 <= k <= s.len(),
        forall|i: int| 0 <= i < k ==> #[trigger] s[i] != '.',
        k < s.len() ==> s[k] == '.',
    ensures
        dot_offset(s) == k,
    decreases k,
{
    if k > 0 {
        let t = s.drop_first();
        assert(s[0] != '.');
        assert forall|i: int| 0 <= i < k - 1 implies #[trigger] t[i] != '.' by {
            assert(t[i] == s[i + 1]);
        }
        lemma_dot_offset_is(t, k - 1);
    }
}

/// The number that a file name writes before its first `.`, if it writes one.
fn leading_number(name: &str) -> (r: Option<i32>)
    ensures
        match r {
            Some(n) => leading(name@) == Some(n as int),
            None => leading(name@) is None,
        },
{
    let v = to_chars(name);
    let mut k: usize = 0;
    while k < v.len() && v[k] != '.'
        invariant
            k <= v.len(),
            forall|i: int| 0 <= i < k ==> #[trigger] v@[i] != '.',
        decreases v.len() - k,
    {
        k += 1;
    }
    proof {
        lemma_dot_offset_is(v@, k as int);
    }
    let field = string_of_range(&v, 0, k);
    parse_number(field.as_str())
}

/// The name of the next file of a directory that holds the given names.
pub fn next_file_name(names: &Vec<String>) -> (r: Option<String>)
    ensures
        match r {
            Some(name) => next_name(name_views(names@)) == Some(name@),
            None => next_name(name_views(names@)) is None,
        },
{
    let ghost all = name_views(names@);
    let mut last: i32 = 0;
    let mut i: usize = 0;
    assert(all.take(0) =~= Seq::empty());
    while i < names.len()
        invariant
            i <= names.len(),
            all == name_views(names@),
            last == last_number(all.take(i as int)),
        decreases names.len() - i,
    {
        proof {
            let next = all.take(i + 1);
            assert(next.drop_last() =~= all.take(i as int));
            assert(next.last() == names@[i as int]@);
        }
        match leading_number(names[i].as_str()) {
            Some(n) => {
                if n > last {
                    last = n;
                }
            },
            None => {},
        }
        i += 1;
    }
    assert(all.take(names.len() as int) =~= all);
    if last == i32::MAX {
        None
    } else {
        let mut name = padded_text(last + 1);
        name.append(".sql");
        Some(name)
    }
}

/// Whether a new file is the one that the contract names.
pub open spec fn is_next_file(r: Option<SourceFile>, names: Seq<Seq<char>>) -> bool {
    match r {
        Some(file) => next_name(names) == Some(file@.file_name) && file@.content
            == Seq::<char>::empty(),
        None => next_name(names) is None,
    }
}

/// The next migration of a directory that holds the given names: an empty
/// file under the next name.
pub fn create_migration(names: &Vec<String>) -> (r: Option<SourceFile>)
    ensures
        is_next_file(r, name_views(names@)),
{
    match next_file_name(names) {
        Some(file_name) => Some(SourceFile { file_name, content: String::new() }),
        None => None,
    }
}

/// The next seed of a directory that holds the given names: an empty file
/// under the next name.
pub fn create_seed(names: &Vec<String>) -> (r: Option<SourceFile>)
    ensures
        is_next_file(r, name_views(names@)),
{
    match next_file_name(names) {
        Some(file_name) => Some(SourceFile { file_name, content: String::new() }),
        None => None,
    }
}

/// A text with every occurrence of a pattern replaced, from left to right;
/// occurrences do not overlap. An empty pattern occurs nowhere.
pub open spec fn replaced(s: Seq<char>, pattern: Seq<char>, by: Seq<char>) -> Seq<char>
    decreases s.len(),
{
    if pattern.len() == 0 || s.len() < pattern.len() {
        s
    } else if s.take(pattern.len() as int) == pattern {
        by + replaced(s.skip(pattern.len() as int), pattern, by)
    } else {
        seq![s[0]] + replaced(s.skip(1), pattern, by)
    }
}

/// A template with the name of the new object in the place of every
/// placeholder.
pub open spec fn filled(template: Seq<char>, name: Seq<char>) -> Seq<char> {
    replaced(template, NAME_PLACEHOLDER@, name)
}

/// The characters that Unicode gives the property White_Space: the controls
/// from tab to carriage return, space, next line, no-break space, ogham space
/// mark, the spaces from en quad to hair space, line and paragraph separator,
/// narrow no-break space, medium mathematical space and ideographic space.
pub open spec fn is_white_space(c: char) -> bool {
    let n = c as int;
    ||| 0x09 <= n <= 0x0d
    ||| n == 0x20
    ||| n == 0x85
    ||| n == 0xa0
    ||| n == 0x1680
    ||| 0x2000 <= n <= 0x200a
    ||| n == 0x2028
    ||| n == 0x2029
    ||| n == 0x202f
    ||| n == 0x205f
    ||| n == 0x3000
}

/// The number of white-space characters at the end of `s`.
pub open spec fn white_at_end(s: Seq<char>) -> nat
    decreases s.len(),
{
    if s.len() > 0 && is_white_space(s.last()) {
        1 + white_at_end(s.drop_last())
    } else {
        0
    }
}

/// The number of white-space characters at the start of `s`.
pub open spec fn white_at_start(s: Seq<char>) -> nat
    decreases s.len(),
{
    if s.len() > 0 && is_white_space(s.first()) {
        1 + white_at_start(s.drop_first())
    } else {
        0
    }
}

/// `s` without the white space at either end.
pub open spec fn trimmed(s: Seq<char>) -> Seq<char> {
    let t = s.take(s.len() - white_at_end(s));
    t.skip(white_at_start(t) as int)
}

/// Whether an answer to the question "reset it?" says yes: `y` or `Y`, with
/// white space around it or none.
pub open spec fn says_yes(answer: Seq<char>) -> bool {
    eq_ignore_case(trimmed(answer), "y"@)
}

/// Any split of `s` into a part that does not end in white space and a run of
/// white space is the split that `white_at_end` makes.
pub proof fn lemma_white_at_end_is(s: Seq<char>, k: int)
    requires
        0 <= k <= s.len(),
        forall|i: int| k <= i < s.len() ==> is_white_space(#[trigger] s[i]),
        k > 0 ==> !is_white_space(s[k - 1]),
    ensures
        white_at_end(s) == s.len() - k,
    decreases s.len() - k,
{
    if k < s.len() {
        assert(is_white_space(s.last()));
        let t = s.drop_last();
        assert forall|i: int| k <= i < t.len() implies is_white_space(#[trigger] t[i]) by {
            assert(t[i] == s[i]);
        }
        lemma_white_at_end_is(t, k);
    }
}

/// Any split of `s` into a run of white space and a part that does not start
/// with white space is the split that `white_at_start` makes.
pub proof fn lemma_white_at_start_is(s: Seq<char>, k: int)
    requires
        0 <= k <= s.len(),
        forall|i: int| 0 <= i < k ==> is_white_space(#[trigger] s[i]),
        k < s.len() ==> !is_white_space(s[k]),
    ensures
        white_at_start(s) == k,
    decreases k,
{
    if k > 0 {
        assert(is_white_space(s.first()));
        let t = s.drop_first();
        assert forall|i: int| 0 <= i < k - 1 implies is_white_space(#[trigger] t[i]) by {
            assert(t[i] == s[i + 1]);
        }
        lemma_white_at_start_is(t, k - 1);
    }
}

/// Whether a character is white space.
pub fn is_white_space_char(c: char) -> (b: bool)
    ensures
        b == is_white_space(c),
{
    let n: u32 = char_code(c);
    (0x09 <= n && n <= 0x0d) || n == 0x20 || n == 0x85 || n == 0xa0 || n == 0x1680 || (0x2000 <= n
        && n <= 0x200a) || n == 0x2028 || n == 0x2029 || n == 0x202f || n == 0x205f || n == 0x3000
}

/// An answer without the white space at either end.
pub fn trim_answer(answer: &str) -> (r: Vec<char>)
    ensures
        r@ == trimmed(answer@),
{
    let v = to_chars(answer);
    let mut to: usize = v.len();
    while to > 0 && is_white_space_char(v[to - 1])
        invariant
            to <= v.len(),
            forall|i: int| to <= i < v.len() ==> is_white_space(#[trigger] v@[i]),
        decreases to,
    {
        to -= 1;
    }
    let mut from: usize = 0;
    while from < to && is_white_space_char(v[from])
        invariant
            from <= to <= v.len(),
            forall|i: int| 0 <= i < from ==> is_white_space(#[trigger] v@[i]),
        decreases to - from,
    {
        from += 1;
    }
    proof {
        lemma_white_at_end_is(v@, to as int);
        lemma_white_at_start_is(v@.take(to as int), from as int);
    }
    let mut r: Vec<char> = Vec::new();
    let mut i: usize = from;
    while i < to
        invariant
            from <= i <= to <= v.len(),
            r@ == v@.subrange(from as int, i as int),
        decreases to - i,
    {
        r.push(v[i]);
        i += 1;
    }
    assert(v@.subrange(from as int, to as int) == v@.take(to as int).skip(from as int));
    r
}

/// Whether the user agreed to reset an object that exists.
pub fn confirms(answer: &str) -> (r: bool)
    ensures
        r == says_yes(answer@),
{
    let t = trim_answer(answer);
    let y = to_chars("y");
    eq_ignore_case_chars(&t, &y)
}

/// Puts the name of the new object in the place of every placeholder.
pub fn fill_template(template: &str, name: &str) -> (out: String)
    ensures
        out@ == filled(template@, name@),
{
    let v = to_chars(template);
    let pattern = to_chars(NAME_PLACEHOLDER);
    let by = to_chars(name);
    if pattern.len() == 0 {
        return template.to_owned();
    }
    let mut out = String::new();
    let mut i: usize = 0;
    proof {
        assert(v@.skip(0) == v@);
        assert(out@ + replaced(v@, pattern@, by@) =~= replaced(v@, pattern@, by@));
    }
    while i < v.len() && pattern.len() <= v.len() - i
        invariant
            i <= v.len(),
            v@ == template@,
            pattern@ == NAME_PLACEHOLDER@,
            pattern.len() > 0,
            by@ == name@,
            out@ + replaced(v@.skip(i as int), pattern@, by@) == replaced(v@, pattern@, by@),
        decreases v.len() - i,
    {
        let ghost rest = v@.skip(i as int);
        let ghost before = out@;
        let found = occurs_at_chars(&v, i, &pattern);
        proof {
            assert(rest.take(pattern@.len() as int) =~= v@.subrange(
                i as int,
                i + pattern@.len(),
            ));
        }
        if found {
            push_range(&mut out, &by, 0, by.len());
            proof {
                assert(by@.subrange(0, by@.len() as int) =~= by@);
                assert(rest.skip(pattern@.len() as int) =~= v@.skip(i + pattern@.len()));
                assert(out@ + replaced(v@.skip(i + pattern@.len()), pattern@, by@) =~= before
                    + replaced(rest, pattern@, by@));
            }
            i += pattern.len();
        } else {
            push_range(&mut out, &v, i, i + 1);
            proof {
                assert(v@.subrange(i as int, i + 1) =~= seq![rest[0]]);
                assert(rest.skip(1) =~= v@.skip(i + 1));
                assert(out@ + replaced(v@.skip(i + 1), pattern@, by@) =~= before + replaced(
                    rest,
                    pattern@,
                    by@,
                ));
            }
            i += 1;
        }
    }
    push_range(&mut out, &v, i, v.len());
    proof {
        assert(v@.subrange(i as int, v.len() as int) =~= v@.skip(i as int));
    }
    out
}

/// What creating an object comes to. Where the object exists and the user
/// did not agree to reset it, nothing is written. Otherwise the object's file
/// is the template with the object's name filled in.
pub open spec fn is_new_object(
    r: Option<SourceFile>,
    name: Seq<char>,
    template: Seq<char>,
    answer: Option<Seq<char>>,
) -> bool {
    if answer is Some && !says_yes(answer->0) {
        r is None
    } else {
        r is Some && r->0@ == (FileView {
            file_name: name + ".sql"@,
            content: filled(template, name),
        })
    }
}

/// The view of an answer that may be absent.
pub open spec fn answer_view(answer: Option<&str>) -> Option<Seq<char>> {
    match answer {
        Some(a) => Some(a@),
        None => None,
    }
}

fn new_object(name: &str, template: &str, answer: Option<&str>) -> (r: Option<SourceFile>)
    ensures
        is_new_object(r, name@, template@, answer_view(answer)),
{
    let go = match answer {
        Some(a) => confirms(a),
        None => true,
    };
    if go {
        let mut file_name = name.to_owned();
        file_name.append(".sql");
        Some(SourceFile { file_name, content: fill_template(template, name) })
    } else {
        None
    }
}

/// Creates a function from its template. `answer` is what the user said to
/// resetting a function that exists, and `None` where none exists.
pub fn create_function(name: &str, template: &str, answer: Option<&str>) -> (r: Option<SourceFile>)
    ensures
        is_new_object(r, name@, template@, answer_view(answer)),
{
    new_object(name, template, answer)
}

/// Creates a trigger from its template. `answer` is what the user said to
/// resetting a trigger that exists, and `None` where none exists.
pub fn create_trigger(name: &str, template: &str, answer: Option<&str>) -> (r: Option<SourceFile>)
    ensures
        is_new_object(r, name@, template@, answer_view(answer)),
{
    new_object(name, template, answer)
}

/// Creates a view from its template. `answer` is what the user said to
/// resetting a view that exists, and `None` where none exists.
pub fn create_view(name: &str, template: &str, answer: Option<&str>) -> (r: Option<SourceFile>)
    ensures
        is_new_object(r, name@, template@, answer_view(answer)),
{
    new_object(name, template, answer)
}

} // verus!
