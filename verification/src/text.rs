//! Character-level text primitives.
//!
//! Every text the library handles is viewed as a `Seq<char>`. The executable
//! functions here work on `Vec<char>` copies of strings so that indexing is
//! constant time, and each one is tied to a spec function over sequences.

use vstd::prelude::*;

verus! {

/// `String::push` appends exactly one character at the end; nothing else
/// changes.
pub assume_specification[ String::push ](s: &mut String, c: char)
    ensures
        final(s)@ == old(s)@.push(c),
;

/// The characters that separate the words of an SQL text: space, tab, line
/// feed, carriage return and form feed. Whitespace, in this module, is a run
/// of these and of no others.
pub open spec fn is_space(c: char) -> bool {
    c == ' ' || c == '\t' || c == '\n' || c == '\r' || c == '\x0c'
}

/// Whether a character separates words.
pub fn is_space_char(c: char) -> (b: bool)
    ensures
        b == is_space(c),
{
    c == ' ' || c == '\t' || c == '\n' || c == '\r' || c == '\x0c'
}

/// The code point of a character.
pub fn char_code(c: char) -> (n: u32)
    ensures
        n == c as int,
{
    c as u32
}

/// The code of a character after folding the upper-case letters `A`..`Z` onto
/// the lower-case ones.
pub open spec fn fold_case(c: char) -> int {
    if 'A' <= c && c <= 'Z' {
        c as int + 32
    } else {
        c as int
    }
}

/// The code of a character after folding upper case onto lower case.
pub fn fold_case_code(c: char) -> (n: u32)
    ensures
        n == fold_case(c),
{
    if 'A' <= c && c <= 'Z' {
        c as u32 + 32
    } else {
        c as u32
    }
}

/// Equality of two texts up to the case of ASCII letters.
pub open spec fn eq_ignore_case(a: Seq<char>, b: Seq<char>) -> bool {
    &&& a.len() == b.len()
    &&& forall|i: int| 0 <= i < a.len() ==> fold_case(#[trigger] a[i]) == fold_case(b[i])
}

/// `p` occurs in `s` starting at index `i`.
pub open spec fn occurs_at(s: Seq<char>, i: int, p: Seq<char>) -> bool {
    &&& 0 <= i
    &&& i + p.len() <= s.len()
    &&& s.subrange(i, i + p.len()) == p
}

/// `p` occurs somewhere in `s`.
pub open spec fn contains_text(s: Seq<char>, p: Seq<char>) -> bool {
    exists|i: int| occurs_at(s, i, p)
}

/// `p` stands at the start of `s`.
pub open spec fn starts_with(s: Seq<char>, p: Seq<char>) -> bool {
    occurs_at(s, 0, p)
}

/// `p` stands at the end of `s`.
pub open spec fn ends_with(s: Seq<char>, p: Seq<char>) -> bool {
    occurs_at(s, s.len() - p.len(), p)
}

/// The number of whitespace characters at the end of `s`.
pub open spec fn trailing_spaces(s: Seq<char>) -> nat
    decreases s.len(),
{
    if s.len() > 0 && is_space(s.last()) {
        1 + trailing_spaces(s.drop_last())
    } else {
        0
    }
}

/// The number of whitespace characters at the start of `s`.
pub open spec fn leading_spaces(s: Seq<char>) -> nat
    decreases s.len(),
{
    if s.len() > 0 && is_space(s.first()) {
        1 + leading_spaces(s.drop_first())
    } else {
        0
    }
}

/// `s` without the whitespace at its end.
pub open spec fn trim_end(s: Seq<char>) -> Seq<char> {
    s.take(s.len() - trailing_spaces(s))
}

/// The whitespace at the start of a text lies within it and ends where
/// another character begins.
pub proof fn lemma_leading_spaces_bound(s: Seq<char>)
    ensures
        leading_spaces(s) <= s.len(),
        forall|i: int| 0 <= i < leading_spaces(s) ==> is_space(#[trigger] s[i]),
        leading_spaces(s) < s.len() ==> !is_space(s[leading_spaces(s) as int]),
    decreases s.len(),
{
    if s.len() > 0 && is_space(s.first()) {
        let t = s.drop_first();
        lemma_leading_spaces_bound(t);
        assert forall|i: int| 0 <= i < leading_spaces(s) implies is_space(#[trigger] s[i]) by {
            if i > 0 {
                assert(s[i] == t[i - 1]);
            }
        }
        if leading_spaces(s) < s.len() {
            assert(s[leading_spaces(s) as int] == t[leading_spaces(t) as int]);
        }
    }
}

/// Any split of `s` into a part that does not end in whitespace and a run of
/// whitespace is the split that `trailing_spaces` makes.
pub proof fn lemma_trailing_spaces_is(s: Seq<char>, k: int)
    requires
        0 <= k <= s.len(),
        forall|i: int| k <= i < s.len() ==> is_space(#[trigger] s[i]),
        k > 0 ==> !is_space(s[k - 1]),
    ensures
        trailing_spaces(s) == s.len() - k,
    decreases s.len() - k,
{
    if k < s.len() {
        assert(is_space(s.last()));
        let t = s.drop_last();
        assert forall|i: int| k <= i < t.len() implies is_space(#[trigger] t[i]) by {
            assert(t[i] == s[i]);
        }
        lemma_trailing_spaces_is(t, k);
    }
}

/// Any split of `s` into a run of whitespace and a part that does not start
/// with whitespace is the split that `leading_spaces` makes.
pub proof fn lemma_leading_spaces_is(s: Seq<char>, k: int)
    requires
        0 <= k <= s.len(),
        forall|i: int| 0 <= i < k ==> is_space(#[trigger] s[i]),
        k < s.len() ==> !is_space(s[k]),
    ensures
        leading_spaces(s) == k,
    decreases k,
{
    if k > 0 {
        assert(is_space(s.first()));
        let t = s.drop_first();
        assert forall|i: int| 0 <= i < k - 1 implies is_space(#[trigger] t[i]) by {
            assert(t[i] == s[i + 1]);
        }
        lemma_leading_spaces_is(t, k - 1);
    }
}

/// The characters of a string, in a vector.
pub fn to_chars(s: &str) -> (v: Vec<char>)
    ensures
        v@ == s@,
{
    let mut v: Vec<char> = Vec::new();
    for c in it: s.chars()
        invariant
            v@ == it.seq().take(it.index() as int),
    {
        v.push(c);
    }
    v
}

/// Appends the characters `v[from..to]` to `out`.
pub fn push_range(out: &mut String, v: &Vec<char>, from: usize, to: usize)
    requires
        from <= to <= v.len(),
    ensures
        final(out)@ == old(out)@ + v@.subrange(from as int, to as int),
{
    let mut i: usize = from;
    while i < to
        invariant
            from <= i <= to,
            to <= v.len(),
            out@ == old(out)@ + v@.subrange(from as int, i as int),
        decreases to - i,
    {
        out.push(v[i]);
        i += 1;
    }
}

/// The string made of the characters `v[from..to]`.
pub fn string_of_range(v: &Vec<char>, from: usize, to: usize) -> (s: String)
    requires
        from <= to <= v.len(),
    ensures
        s@ == v@.subrange(from as int, to as int),
{
    let mut s = String::new();
    push_range(&mut s, v, from, to);
    s
}

/// The string made of all the characters of `v`.
pub fn string_of(v: &Vec<char>) -> (s: String)
    ensures
        s@ == v@,
{
    let s = string_of_range(v, 0, v.len());
    assert(v@.subrange(0, v.len() as int) == v@);
    s
}

/// Whether two strings hold the same characters.
pub fn text_eq(a: &str, b: &str) -> (r: bool)
    ensures
        r == (a@ == b@),
{
    let x = to_chars(a);
    let y = to_chars(b);
    if x.len() != y.len() {
        return false;
    }
    let mut i: usize = 0;
    while i < x.len()
        invariant
            i <= x.len(),
            x.len() == y.len(),
            x@ == a@,
            y@ == b@,
            forall|j: int| 0 <= j < i ==> x@[j] == y@[j],
        decreases x.len() - i,
    {
        if x[i] != y[i] {
            return false;
        }
        i += 1;
    }
    assert(x@ =~= y@);
    true
}

/// Whether two texts are equal up to the case of ASCII letters.
pub fn eq_ignore_case_chars(a: &Vec<char>, b: &Vec<char>) -> (r: bool)
    ensures
        r == eq_ignore_case(a@, b@),
{
    if a.len() != b.len() {
        return false;
    }
    let mut i: usize = 0;
    while i < a.len()
        invariant
            i <= a.len(),
            a.len() == b.len(),
            forall|j: int| 0 <= j < i ==> fold_case(#[trigger] a@[j]) == fold_case(b@[j]),
        decreases a.len() - i,
    {
        if fold_case_code(a[i]) != fold_case_code(b[i]) {
            return false;
        }
        i += 1;
    }
    true
}

/// Whether the pattern `p` stands in `s` at index `i`.
pub fn occurs_at_chars(s: &Vec<char>, i: usize, p: &Vec<char>) -> (r: bool)
    ensures
        r == occurs_at(s@, i as int, p@),
{
    if i > s.len() || p.len() > s.len() - i {
        return false;
    }
    let mut j: usize = 0;
    while j < p.len()
        invariant
            j <= p.len(),
            i + p.len() <= s.len(),
            forall|k: int| 0 <= k < j ==> s@[i + k] == #[trigger] p@[k],
        decreases p.len() - j,
    {
        if s[i + j] != p[j] {
            assert(s@.subrange(i as int, i + p.len())[j as int] != p@[j as int]);
            return false;
        }
        j += 1;
    }
    assert(s@.subrange(i as int, i + p.len()) =~= p@);
    true
}

/// Whether the pattern `p` occurs somewhere in `s`.
pub fn contains_chars(s: &Vec<char>, p: &Vec<char>) -> (r: bool)
    ensures
        r == contains_text(s@, p@),
{
    if p.len() > s.len() {
        return false;
    }
    let last: usize = s.len() - p.len();
    let mut i: usize = 0;
    while i < last
        invariant
            i <= last,
            last == s.len() - p.len(),
            forall|k: int| 0 <= k < i ==> !occurs_at(s@, k, p@),
        decreases last - i,
    {
        if occurs_at_chars(s, i, p) {
            return true;
        }
        i += 1;
    }
    occurs_at_chars(s, last, p)
}

/// Whether the pattern `p` stands at the end of `s`.
pub fn ends_with_chars(s: &Vec<char>, p: &Vec<char>) -> (r: bool)
    ensures
        r == ends_with(s@, p@),
{
    if p.len() > s.len() {
        return false;
    }
    occurs_at_chars(s, s.len() - p.len(), p)
}

/// The index at which the whitespace at the end of `v` begins.
pub fn trim_end_len(v: &Vec<char>) -> (n: usize)
    ensures
        n == v.len() - trailing_spaces(v@),
        n <= v.len(),
{
    let mut n: usize = v.len();
    while n > 0 && is_space_char(v[n - 1])
        invariant
            n <= v.len(),
            forall|i: int| n <= i < v.len() ==> is_space(#[trigger] v@[i]),
        decreases n,
    {
        n -= 1;
    }
    proof {
        lemma_trailing_spaces_is(v@, n as int);
    }
    n
}

/// The characters of `v` without the whitespace at its end.
pub fn trim_end_chars(v: &Vec<char>) -> (r: Vec<char>)
    ensures
        r@ == trim_end(v@),
{
    let n: usize = trim_end_len(v);
    let mut r: Vec<char> = Vec::new();
    let mut i: usize = 0;
    while i < n
        invariant
            i <= n <= v.len(),
            r@ == v@.take(i as int),
        decreases n - i,
    {
        r.push(v[i]);
        i += 1;
    }
    r
}

/// The number of characters of `s` before its first line feed; the length of
/// `s` when it has none.
pub open spec fn first_newline(s: Seq<char>) -> nat
    decreases s.len(),
{
    if s.len() == 0 || s[0] == '\n' {
        0
    } else {
        1 + first_newline(s.drop_first())
    }
}

/// A line as it stood before its line feed, without the carriage return that
/// may end it.
pub open spec fn without_cr(piece: Seq<char>) -> Seq<char> {
    if piece.len() > 0 && piece.last() == '\r' {
        piece.drop_last()
    } else {
        piece
    }
}

/// The lines of a text. A line ends at a line feed, or at a carriage return
/// directly followed by one; neither belongs to the line. What follows the
/// last line feed is a line as it stands, unless it is empty.
pub open spec fn lines(s: Seq<char>) -> Seq<Seq<char>>
    decreases s.len(),
{
    if s.len() == 0 {
        Seq::empty()
    } else {
        let k = first_newline(s);
        if k >= s.len() {
            seq![s]
        } else {
            seq![without_cr(s.take(k as int))] + lines(s.skip(k as int + 1))
        }
    }
}

/// Which lines a pass over a text removes.
#[derive(Clone, Copy, Debug, PartialEq, Eq, Structural)]
pub enum LineRule {
    /// Remove the lines that have no character.
    DropEmpty,
    /// Remove the lines that start with `--`.
    DropComments,
    /// Remove what a dump carries besides the schema: the lines that have no
    /// character, the lines that start with `--`, and the two session
    /// settings of the dump tool.
    DropDumpNoise,
}

/// The mark that opens a comment line.
pub open spec fn comment_mark() -> Seq<char> {
    "--"@
}

/// The statement by which a dump empties the search path.
pub const SEARCH_PATH_RESET: &'static str =
    "SELECT pg_catalog.set_config('search_path', '', false);";

/// The statement by which a dump silences notices.
pub const CLIENT_MESSAGES_LEVEL: &'static str = "SET client_min_messages = warning;";

impl LineRule {
    /// Whether a line stays under this rule.
    pub open spec fn keeps(self, line: Seq<char>) -> bool {
        match self {
            LineRule::DropEmpty => line.len() > 0,
            LineRule::DropComments => !starts_with(line, comment_mark()),
            LineRule::DropDumpNoise => {
                &&& line.len() > 0
                &&& !starts_with(line, comment_mark())
                &&& line != SEARCH_PATH_RESET@
                &&& line != CLIENT_MESSAGES_LEVEL@
            },
        }
    }
}

/// Whether `v[from..to]` starts with `p`.
fn range_starts_with(v: &Vec<char>, from: usize, to: usize, p: &Vec<char>) -> (r: bool)
    requires
        from <= to <= v.len(),
    ensures
        r == starts_with(v@.subrange(from as int, to as int), p@),
{
    if p.len() > to - from {
        return false;
    }
    let r = occurs_at_chars(v, from, p);
    assert(v@.subrange(from as int, to as int).subrange(0, p@.len() as int) == v@.subrange(
        from as int,
        from + p@.len(),
    ));
    r
}

/// Whether `v[from..to]` is `p`.
fn range_is(v: &Vec<char>, from: usize, to: usize, p: &Vec<char>) -> (r: bool)
    requires
        from <= to <= v.len(),
    ensures
        r == (v@.subrange(from as int, to as int) == p@),
{
    if p.len() != to - from {
        return false;
    }
    occurs_at_chars(v, from, p)
}

/// The lines among `ls` that stay under `rule`, in order.
pub open spec fn kept_lines(ls: Seq<Seq<char>>, rule: LineRule) -> Seq<Seq<char>>
    decreases ls.len(),
{
    if ls.len() == 0 {
        Seq::empty()
    } else if rule.keeps(ls.last()) {
        kept_lines(ls.drop_last(), rule).push(ls.last())
    } else {
        kept_lines(ls.drop_last(), rule)
    }
}

/// The lines joined by single line feeds, with none at the end.
pub open spec fn join_lines(ls: Seq<Seq<char>>) -> Seq<char>
    decreases ls.len(),
{
    if ls.len() == 0 {
        Seq::empty()
    } else if ls.len() == 1 {
        ls[0]
    } else {
        join_lines(ls.drop_last()) + seq!['\n'] + ls.last()
    }
}

/// A text after one pass that removes lines: its remaining lines, joined by
/// line feeds.
pub open spec fn filter_lines(s: Seq<char>, rule: LineRule) -> Seq<char> {
    join_lines(kept_lines(lines(s), rule))
}

/// The first position `k` of `s` that holds a line feed, or the length of `s`
/// when none does, is `first_newline(s)`.
pub proof fn lemma_first_newline_is(s: Seq<char>, k: int)
    requires
        0 <= k <= s.len(),
        forall|i: int| 0 <= i < k ==> #[trigger] s[i] != '\n',
        k < s.len() ==> s[k] == '\n',
    ensures
        first_newline(s) == k,
    decreases k,
{
    if k > 0 {
        let t = s.drop_first();
        assert(s[0] != '\n');
        assert forall|i: int| 0 <= i < k - 1 implies #[trigger] t[i] != '\n' by {
            assert(t[i] == s[i + 1]);
        }
        lemma_first_newline_is(t, k - 1);
    }
}

/// Removes the lines of a text that `rule` drops and joins the others by
/// line feeds.
pub fn filter_text_lines(text: &str, rule: LineRule) -> (out: String)
    ensures
        out@ == filter_lines(text@, rule),
{
    let v = to_chars(text);
    let mark = to_chars("--");
    let reset = to_chars(SEARCH_PATH_RESET);
    let level = to_chars(CLIENT_MESSAGES_LEVEL);
    let mut out = String::new();
    let mut none_kept: bool = true;
    let ghost mut done: Seq<Seq<char>> = Seq::empty();
    let mut i: usize = 0;
    assert(v@.skip(0) == v@);
    assert(done + lines(v@) == lines(v@));
    while i < v.len()
        invariant
            i <= v.len(),
            v@ == text@,
            mark@ == comment_mark(),
            reset@ == SEARCH_PATH_RESET@,
            level@ == CLIENT_MESSAGES_LEVEL@,
            done + lines(v@.skip(i as int)) == lines(v@),
            out@ == join_lines(kept_lines(done, rule)),
            none_kept == (kept_lines(done, rule).len() == 0),
        decreases v.len() - i,
    {
        let ghost rest = v@.skip(i as int);
        let mut j: usize = i;
        while j < v.len() && v[j] != '\n'
            invariant
                i <= j <= v.len(),
                forall|k: int| i <= k < j ==> #[trigger] v@[k] != '\n',
            decreases v.len() - j,
        {
            j += 1;
        }
        proof {
            lemma_first_newline_is(rest, j - i);
        }
        let mut end: usize = j;
        if j < v.len() && end > i && v[end - 1] == '\r' {
            end -= 1;
        }
        let ghost line = v@.subrange(i as int, end as int);
        proof {
            if j < v.len() {
                assert(rest.take(j - i) == v@.subrange(i as int, j as int));
                assert(line == without_cr(rest.take(j - i)));
                assert(rest.skip(j - i + 1) == v@.skip(j + 1));
                assert(lines(rest) == seq![line] + lines(v@.skip(j + 1)));
                assert(done.push(line) + lines(v@.skip(j + 1)) == lines(v@));
            } else {
                assert(line == rest);
                assert(lines(rest) == seq![line]);
                assert(lines(v@.skip(v.len() as int)) == Seq::<Seq<char>>::empty());
                assert(done.push(line) + lines(v@.skip(v.len() as int)) == lines(v@));
            }
            assert(done.push(line).drop_last() == done);
        }
        let keep: bool = match rule {
            LineRule::DropEmpty => end > i,
            LineRule::DropComments => !range_starts_with(&v, i, end, &mark),
            LineRule::DropDumpNoise => end > i && !range_starts_with(&v, i, end, &mark)
                && !range_is(&v, i, end, &reset) && !range_is(&v, i, end, &level),
        };
        assert(keep == rule.keeps(line));
        if keep {
            if !none_kept {
                out.push('\n');
            }
            push_range(&mut out, &v, i, end);
            none_kept = false;
            proof {
                let before = kept_lines(done, rule);
                assert(before.push(line).drop_last() == before);
                assert(out@ == join_lines(before.push(line)));
            }
        }
        proof {
            done = done.push(line);
        }
        if j < v.len() {
            i = j + 1;
        } else {
            i = j;
        }
    }
    assert(done == lines(v@));
    out
}

/// The lines of a text, each in a string of its own.
pub fn line_list(text: &str) -> (out: Vec<String>)
    ensures
        out@.map_values(|l: String| l@) == lines(text@),
{
    let v = to_chars(text);
    let ghost view_of = |l: String| l@;
    let mut out: Vec<String> = Vec::new();
    let mut i: usize = 0;
    proof {
        assert(v@.skip(0) == v@);
        assert(out@.map_values(view_of) + lines(v@) =~= lines(v@));
    }
    while i < v.len()
        invariant
            i <= v.len(),
            v@ == text@,
            view_of == (|l: String| l@),
            out@.map_values(view_of) + lines(v@.skip(i as int)) == lines(v@),
        decreases v.len() - i,
    {
        let ghost rest = v@.skip(i as int);
        let ghost before = out@.map_values(view_of);
        let mut j: usize = i;
        while j < v.len() && v[j] != '\n'
            invariant
                i <= j <= v.len(),
                forall|k: int| i <= k < j ==> #[trigger] v@[k] != '\n',
            decreases v.len() - j,
        {
            j += 1;
        }
        proof {
            lemma_first_newline_is(rest, j - i);
        }
        let mut end: usize = j;
        if j < v.len() && end > i && v[end - 1] == '\r' {
            end -= 1;
        }
        let line = string_of_range(&v, i, end);
        out.push(line);
        proof {
            let l = v@.subrange(i as int, end as int);
            assert(out@.map_values(view_of) =~= before.push(l));
            if j < v.len() {
                assert(rest.take(j - i) == v@.subrange(i as int, j as int));
                assert(l == without_cr(rest.take(j - i)));
                assert(rest.skip(j - i + 1) == v@.skip(j + 1));
                assert(lines(rest) == seq![l] + lines(v@.skip(j + 1)));
                assert(before.push(l) + lines(v@.skip(j + 1)) =~= before + lines(rest));
            } else {
                assert(l == rest);
                assert(lines(rest) == seq![l]);
                assert(lines(v@.skip(v.len() as int)) == Seq::<Seq<char>>::empty());
                assert(before.push(l) + lines(v@.skip(v.len() as int)) =~= before + lines(rest));
            }
        }
        if j < v.len() {
            i = j + 1;
        } else {
            i = j;
        }
    }
    assert(out@.map_values(view_of) + Seq::<Seq<char>>::empty() =~= out@.map_values(view_of));
    out
}

} // verus!
