//! The schema dump scanner.
//!
//! A dump is cut into tokens, each a word with the whitespace that follows
//! it, so that the tokens put together again are the dump. A state machine
//! reads one token at a time: statements that create a function or a view are
//! taken out as objects, everything else is left over for the bootstrap
//! migration.

use vstd::prelude::*;
use vstd::string::StringExecFns;
use crate::artifact::Category;
use crate::text::{
    contains_chars, contains_text, eq_ignore_case, eq_ignore_case_chars, is_space, is_space_char,
    leading_spaces, lemma_leading_spaces_bound, lemma_leading_spaces_is, string_of_range,
    to_chars, trim_end, trim_end_chars,
};

verus! {

/// The number of characters of `s` before its first whitespace character; the
/// length of `s` when it has none.
pub open spec fn word_len(s: Seq<char>) -> nat
    decreases s.len(),
{
    if s.len() > 0 && !is_space(s.first()) {
        1 + word_len(s.drop_first())
    } else {
        0
    }
}

/// The length of the first token of `s`: its leading word, which is empty
/// where `s` starts with whitespace, and the whitespace behind that word.
pub open spec fn token_len(s: Seq<char>) -> nat {
    word_len(s) + leading_spaces(s.skip(word_len(s) as int))
}

/// The tokens of a text.
pub open spec fn tokens(s: Seq<char>) -> Seq<Seq<char>>
    decreases s.len(),
{
    if s.len() == 0 {
        Seq::empty()
    } else {
        let n = token_len(s);
        if n == 0 || n >= s.len() {
            seq![s]
        } else {
            seq![s.take(n as int)] + tokens(s.skip(n as int))
        }
    }
}

/// The texts of `parts` put together in order.
pub open spec fn concat(parts: Seq<Seq<char>>) -> Seq<char>
    decreases parts.len(),
{
    if parts.len() == 0 {
        Seq::empty()
    } else {
        concat(parts.drop_last()) + parts.last()
    }
}

/// The leading word of a text lies within it, holds no whitespace, and ends
/// where whitespace begins.
pub proof fn lemma_word_len(s: Seq<char>)
    ensures
        word_len(s) <= s.len(),
        forall|i: int| 0 <= i < word_len(s) ==> !is_space(#[trigger] s[i]),
        word_len(s) < s.len() ==> is_space(s[word_len(s) as int]),
    decreases s.len(),
{
    if s.len() > 0 && !is_space(s.first()) {
        let t = s.drop_first();
        lemma_word_len(t);
        assert forall|i: int| 0 <= i < word_len(s) implies !is_space(#[trigger] s[i]) by {
            if i > 0 {
                assert(s[i] == t[i - 1]);
            }
        }
        if word_len(s) < s.len() {
            assert(s[word_len(s) as int] == t[word_len(t) as int]);
        }
    }
}

/// The first position `k` of `s` that holds whitespace, or the length of `s`
/// when none does, is `word_len(s)`.
pub proof fn lemma_word_len_is(s: Seq<char>, k: int)
    requires
        0 <= k <= s.len(),
        forall|i: int| 0 <= i < k ==> !is_space(#[trigger] s[i]),
        k < s.len() ==> is_space(s[k]),
    ensures
        word_len(s) == k,
    decreases k,
{
    if k > 0 {
        let t = s.drop_first();
        assert(!is_space(s[0]));
        assert forall|i: int| 0 <= i < k - 1 implies !is_space(#[trigger] t[i]) by {
            assert(t[i] == s[i + 1]);
        }
        lemma_word_len_is(t, k - 1);
    }
}

/// A non-empty text has a non-empty first token that lies within it.
pub proof fn lemma_token_len(s: Seq<char>)
    requires
        s.len() > 0,
    ensures
        0 < token_len(s) <= s.len(),
{
    lemma_word_len(s);
    let w = word_len(s) as int;
    lemma_leading_spaces_bound(s.skip(w));
    if w == 0 {
        assert(s.skip(0) == s);
        assert(is_space(s.first()));
    }
}

/// Putting a part in front of the others puts its text in front of theirs.
pub proof fn lemma_concat_front(part: Seq<char>, parts: Seq<Seq<char>>)
    ensures
        concat(seq![part] + parts) == part + concat(parts),
    decreases parts.len(),
{
    if parts.len() == 0 {
        let one = seq![part];
        assert(one + parts =~= one);
        assert(one.drop_last() =~= Seq::<Seq<char>>::empty());
        assert(one.last() == part);
        assert(concat(one.drop_last()) =~= Seq::<char>::empty());
        assert(concat(one) =~= part);
        assert(part + concat(parts) =~= part);
    } else {
        let all = seq![part] + parts;
        assert(all.drop_last() =~= seq![part] + parts.drop_last());
        assert(all.last() == parts.last());
        lemma_concat_front(part, parts.drop_last());
        assert(concat(all) =~= part + concat(parts.drop_last()) + parts.last());
        assert(concat(all) =~= part + concat(parts));
    }
}

/// The tokens of a text, put together again, are the text: no character is
/// lost and none is added.
pub proof fn law_tokens_rejoin(s: Seq<char>)
    ensures
        concat(tokens(s)) == s,
    decreases s.len(),
{
    if s.len() == 0 {
        assert(concat(tokens(s)) == s);
    } else {
        let n = token_len(s);
        if n == 0 || n >= s.len() {
            lemma_concat_front(s, Seq::empty());
            assert(seq![s] + Seq::<Seq<char>>::empty() =~= seq![s]);
            assert(s + Seq::<char>::empty() =~= s);
        } else {
            law_tokens_rejoin(s.skip(n as int));
            lemma_concat_front(s.take(n as int), tokens(s.skip(n as int)));
            assert(s.take(n as int) + s.skip(n as int) =~= s);
        }
    }
}

/// Cuts a text into its tokens.
pub fn tokenize(text: &str) -> (out: Vec<String>)
    ensures
        out@.map_values(|t: String| t@) == tokens(text@),
{
    let v = to_chars(text);
    let ghost view_of = |t: String| t@;
    let mut out: Vec<String> = Vec::new();
    let mut i: usize = 0;
    proof {
        assert(v@.skip(0) == v@);
        assert(out@.map_values(view_of) + tokens(v@) =~= tokens(v@));
    }
    while i < v.len()
        invariant
            i <= v.len(),
            v@ == text@,
            view_of == (|t: String| t@),
            out@.map_values(view_of) + tokens(v@.skip(i as int)) == tokens(v@),
        decreases v.len() - i,
    {
        let ghost rest = v@.skip(i as int);
        let ghost before = out@.map_values(view_of);
        let end: usize = token_end(&v, i);
        let token = string_of_range(&v, i, end);
        out.push(token);
        proof {
            lemma_token_len(rest);
            assert(v@.subrange(i as int, end as int) == rest.take(end - i));
            assert(out@.map_values(view_of) =~= before.push(rest.take(end - i)));
            if end < v.len() {
                assert(rest.skip(end - i) == v@.skip(end as int));
                assert(tokens(rest) == seq![rest.take(end - i)] + tokens(v@.skip(end as int)));
            } else {
                assert(rest.take(end - i) == rest);
                assert(tokens(rest) == seq![rest]);
                assert(tokens(v@.skip(end as int)) == Seq::<Seq<char>>::empty());
            }
            assert(before.push(rest.take(end - i)) + tokens(v@.skip(end as int)) =~= before
                + tokens(rest));
        }
        i = end;
    }
    assert(out@.map_values(view_of) + Seq::<Seq<char>>::empty() =~= out@.map_values(view_of));
    out
}

/// The index just behind the token of `v` that begins at `from`.
pub fn token_end(v: &Vec<char>, from: usize) -> (end: usize)
    requires
        from < v.len(),
    ensures
        from < end <= v.len(),
        end - from == token_len(v@.skip(from as int)),
{
    let ghost rest = v@.skip(from as int);
    let mut j: usize = from;
    while j < v.len() && !is_space_char(v[j])
        invariant
            from <= j <= v.len(),
            forall|k: int| from <= k < j ==> !is_space(#[trigger] v@[k]),
        decreases v.len() - j,
    {
        j += 1;
    }
    let word_end: usize = j;
    while j < v.len() && is_space_char(v[j])
        invariant
            word_end <= j <= v.len(),
            forall|k: int| word_end <= k < j ==> is_space(#[trigger] v@[k]),
        decreases v.len() - j,
    {
        j += 1;
    }
    proof {
        lemma_word_len_is(rest, word_end - from);
        assert(rest.skip(word_end - from) == v@.skip(word_end as int));
        lemma_leading_spaces_is(v@.skip(word_end as int), j - word_end);
        lemma_token_len(rest);
    }
    j
}

/// A statement taken out of a dump: what it creates, under which name, and
/// its full text.
#[derive(Debug, PartialEq, Eq)]
pub struct SqlObject {
    pub category: Category,
    pub name: String,
    pub body: String,
}

/// What a `SqlObject` is in contracts.
pub struct ObjectView {
    pub category: Category,
    pub name: Seq<char>,
    pub body: Seq<char>,
}

impl View for SqlObject {
    type V = ObjectView;

    open spec fn view(&self) -> ObjectView {
        ObjectView { category: self.category, name: self.name@, body: self.body@ }
    }
}

impl SqlObject {
    /// A copy of this object.
    pub fn duplicate(&self) -> (object: SqlObject)
        ensures
            object@ == self@,
    {
        SqlObject { category: self.category, name: self.name.clone(), body: self.body.clone() }
    }
}

/// What a dump lacked where a statement was left unfinished.
#[derive(Clone, Copy, Debug, PartialEq, Eq, Structural)]
pub enum ParseErrorKind {
    /// Nothing that can serve as a name follows `CREATE FUNCTION` or
    /// `CREATE VIEW`.
    MissingName,
    /// A function's header has no `RETURNS`.
    MissingReturns,
    /// Nothing follows `RETURNS`.
    MissingReturnType,
    /// No dollar-quote opens the function's body.
    MissingBody,
    /// The dollar-quote that opened the function's body is never closed.
    UnterminatedBody,
    /// No semicolon ends the view's statement.
    UnterminatedView,
}

/// Where the scanner stands between two tokens.
#[derive(Debug, PartialEq, Eq)]
pub enum State {
    /// Outside any statement of interest.
    Scanning,
    /// `CREATE` was read and is held back until the next token tells what is
    /// created.
    Created { held: String },
    /// `CREATE MATERIALIZED` was read and is held back.
    Materialized { held: String },
    /// The statement's opening words were read; the next token names the
    /// object.
    Naming { category: Category, text: String },
    /// In a function's header, before `RETURNS`.
    AwaitReturns { name: String, text: String },
    /// In a function's header, directly behind `RETURNS`.
    AwaitType { name: String, text: String },
    /// In a function's header, before the dollar-quote that opens the body.
    AwaitBody { category: Category, name: String, text: String },
    /// In a function's body, before the closing dollar-quote `tag`.
    Body { category: Category, name: String, tag: String, text: String },
    /// Behind a function's body or in a view, before the semicolon that ends
    /// the statement.
    Closing { category: Category, name: String, text: String },
}

/// What a `State` is in contracts.
pub enum StateView {
    Scanning,
    Created { held: Seq<char> },
    Materialized { held: Seq<char> },
    Naming { category: Category, text: Seq<char> },
    AwaitReturns { name: Seq<char>, text: Seq<char> },
    AwaitType { name: Seq<char>, text: Seq<char> },
    AwaitBody { category: Category, name: Seq<char>, text: Seq<char> },
    Body { category: Category, name: Seq<char>, tag: Seq<char>, text: Seq<char> },
    Closing { category: Category, name: Seq<char>, text: Seq<char> },
}

impl View for State {
    type V = StateView;

    open spec fn view(&self) -> StateView {
        match self {
            State::Scanning => StateView::Scanning,
            State::Created { held } => StateView::Created { held: held@ },
            State::Materialized { held } => StateView::Materialized { held: held@ },
            State::Naming { category, text } => StateView::Naming {
                category: *category,
                text: text@,
            },
            State::AwaitReturns { name, text } => StateView::AwaitReturns {
                name: name@,
                text: text@,
            },
            State::AwaitType { name, text } => StateView::AwaitType { name: name@, text: text@ },
            State::AwaitBody { category, name, text } => StateView::AwaitBody {
                category: *category,
                name: name@,
                text: text@,
            },
            State::Body { category, name, tag, text } => StateView::Body {
                category: *category,
                name: name@,
                tag: tag@,
                text: text@,
            },
            State::Closing { category, name, text } => StateView::Closing {
                category: *category,
                name: name@,
                text: text@,
            },
        }
    }
}

/// What reading one token brings about: the state behind the token, the text
/// that falls to the bootstrap residual, and the object that the token
/// completed, if it completed one.
#[derive(Debug, PartialEq, Eq)]
pub struct Step {
    pub state: State,
    pub residual: String,
    pub object: Option<SqlObject>,
}

/// What a `Step` is in contracts.
pub struct StepView {
    pub state: StateView,
    pub residual: Seq<char>,
    pub object: Option<ObjectView>,
}

impl View for Step {
    type V = StepView;

    open spec fn view(&self) -> StepView {
        StepView {
            state: self.state@,
            residual: self.residual@,
            object: match self.object {
                Some(o) => Some(o@),
                None => None,
            },
        }
    }
}

/// The number of characters of `s` before its first `(` or whitespace.
pub open spec fn name_len(s: Seq<char>) -> nat
    decreases s.len(),
{
    if s.len() > 0 && s.first() != '(' && !is_space(s.first()) {
        1 + name_len(s.drop_first())
    } else {
        0
    }
}

/// The name that a name token gives: what stands before its first `(` or
/// whitespace.
pub open spec fn object_name(token: Seq<char>) -> Seq<char> {
    token.take(name_len(token) as int)
}

/// The number of characters of `s` before its first `$`.
pub open spec fn dollar_offset(s: Seq<char>) -> nat
    decreases s.len(),
{
    if s.len() > 0 && s.first() != '$' {
        1 + dollar_offset(s.drop_first())
    } else {
        0
    }
}

/// A word that opens a function body: it starts and ends with `$`.
pub open spec fn opens_body(word: Seq<char>) -> bool {
    word.len() > 0 && word.first() == '$' && word.last() == '$'
}

/// The length of the dollar-quote tag at the start of a word that opens a
/// body: up to and including the second `$`. A word that is a single `$` is
/// its own tag.
pub open spec fn tag_len(word: Seq<char>) -> nat {
    if word.len() <= 1 {
        word.len()
    } else {
        (dollar_offset(word.drop_first()) + 2) as nat
    }
}

/// Whether a word ends a statement.
pub open spec fn ends_statement(word: Seq<char>) -> bool {
    word.len() > 0 && word.last() == ';'
}

/// The step that leaves the scanner in `state` with nothing else done.
pub open spec fn moved(state: StateView) -> Result<StepView, ParseErrorKind> {
    Ok(StepView { state, residual: Seq::empty(), object: None })
}

/// The step that hands `text` to the residual and goes back to scanning.
pub open spec fn passed(text: Seq<char>) -> Result<StepView, ParseErrorKind> {
    Ok(StepView { state: StateView::Scanning, residual: text, object: None })
}

/// The step that completes an object and goes back to scanning.
pub open spec fn completed(category: Category, name: Seq<char>, body: Seq<char>) -> Result<
    StepView,
    ParseErrorKind,
> {
    Ok(
        StepView {
            state: StateView::Scanning,
            residual: Seq::empty(),
            object: Some(ObjectView { category, name, body }),
        },
    )
}

/// The step behind a token that may end the statement in progress.
pub open spec fn closed_or_closing(
    category: Category,
    name: Seq<char>,
    text: Seq<char>,
    word: Seq<char>,
) -> Result<StepView, ParseErrorKind> {
    if ends_statement(word) {
        completed(category, name, text)
    } else {
        moved(StateView::Closing { category, name, text })
    }
}

/// What reading `token` in `state` brings about. Words are compared without
/// regard to the case of letters. The text of an object is the statement as
/// the dump has it, token for token, but for its opening words, which are
/// written anew so that the statement can be run again.
pub open spec fn step_of(state: StateView, token: Seq<char>) -> Result<StepView, ParseErrorKind> {
    let word = trim_end(token);
    match state {
        StateView::Scanning => if eq_ignore_case(word, "CREATE"@) {
            moved(StateView::Created { held: token })
        } else {
            passed(token)
        },
        StateView::Created { held } => if eq_ignore_case(word, "FUNCTION"@) {
            moved(
                StateView::Naming {
                    category: Category::Function,
                    text: "CREATE OR REPLACE FUNCTION "@,
                },
            )
        } else if eq_ignore_case(word, "VIEW"@) {
            moved(StateView::Naming { category: Category::View, text: "CREATE OR REPLACE VIEW "@ })
        } else if eq_ignore_case(word, "MATERIALIZED"@) {
            moved(StateView::Materialized { held: held + token })
        } else {
            passed(held + token)
        },
        StateView::Materialized { held } => if eq_ignore_case(word, "VIEW"@) {
            moved(
                StateView::Naming { category: Category::View, text: "CREATE MATERIALIZED VIEW "@ },
            )
        } else {
            passed(held + token)
        },
        StateView::Naming { category, text } => if object_name(token).len() == 0 {
            Err(ParseErrorKind::MissingName)
        } else if category == Category::View {
            closed_or_closing(category, object_name(token), text + token, word)
        } else {
            moved(StateView::AwaitReturns { name: object_name(token), text: text + token })
        },
        StateView::AwaitReturns { name, text } => if eq_ignore_case(word, "RETURNS"@) {
            moved(StateView::AwaitType { name, text: text + token })
        } else {
            moved(StateView::AwaitReturns { name, text: text + token })
        },
        StateView::AwaitType { name, text } => moved(
            StateView::AwaitBody {
                category: if eq_ignore_case(word, "TRIGGER"@) {
                    Category::Trigger
                } else {
                    Category::Function
                },
                name,
                text: text + token,
            },
        ),
        StateView::AwaitBody { category, name, text } => if opens_body(word) {
            let tag = word.take(tag_len(word) as int);
            if contains_text(word.skip(tag_len(word) as int), tag) {
                closed_or_closing(category, name, text + token, word)
            } else {
                moved(StateView::Body { category, name, tag, text: text + token })
            }
        } else {
            moved(StateView::AwaitBody { category, name, text: text + token })
        },
        StateView::Body { category, name, tag, text } => if contains_text(token, tag) {
            closed_or_closing(category, name, text + token, word)
        } else {
            moved(StateView::Body { category, name, tag, text: text + token })
        },
        StateView::Closing { category, name, text } => closed_or_closing(
            category,
            name,
            text + token,
            word,
        ),
    }
}

/// Whether a result of the scanner's step is the one that the contract names.
pub open spec fn step_matches(got: Result<Step, ParseErrorKind>, want: Result<
    StepView,
    ParseErrorKind,
>) -> bool {
    match got {
        Ok(step) => want == Ok::<StepView, ParseErrorKind>(step@),
        Err(kind) => want == Err::<StepView, ParseErrorKind>(kind),
    }
}

/// The first position `k` of `s` that holds `(` or whitespace, or the length
/// of `s` when none does, is `name_len(s)`.
proof fn lemma_name_len_is(s: Seq<char>, k: int)
    requires
        0 <= k <= s.len(),
        forall|i: int| 0 <= i < k ==> #[trigger] s[i] != '(' && !is_space(s[i]),
        k < s.len() ==> s[k] == '(' || is_space(s[k]),
    ensures
        name_len(s) == k,
    decreases k,
{
    if k > 0 {
        let t = s.drop_first();
        assert(s[0] != '(' && !is_space(s[0]));
        assert forall|i: int| 0 <= i < k - 1 implies #[trigger] t[i] != '(' && !is_space(t[i]) by {
            assert(t[i] == s[i + 1]);
        }
        lemma_name_len_is(t, k - 1);
    }
}

/// The first position `k` of `s` that holds `$`, or the length of `s` when
/// none does, is `dollar_offset(s)`.
proof fn lemma_dollar_offset_is(s: Seq<char>, k: int)
    requires
        0 <= k <= s.len(),
        forall|i: int| 0 <= i < k ==> #[trigger] s[i] != '$',
        k < s.len() ==> s[k] == '$',
    ensures
        dollar_offset(s) == k,
    decreases k,
{
    if k > 0 {
        let t = s.drop_first();
        assert(s[0] != '$');
        assert forall|i: int| 0 <= i < k - 1 implies #[trigger] t[i] != '$' by {
            assert(t[i] == s[i + 1]);
        }
        lemma_dollar_offset_is(t, k - 1);
    }
}

/// The characters `v[from..to]`, in a vector of their own.
fn copy_range(v: &Vec<char>, from: usize, to: usize) -> (r: Vec<char>)
    requires
        from <= to <= v.len(),
    ensures
        r@ == v@.subrange(from as int, to as int),
{
    let mut r: Vec<char> = Vec::new();
    let mut i: usize = from;
    while i < to
        invariant
            from <= i <= to <= v.len(),
            r@ == v@.subrange(from as int, i as int),
        decreases to - i,
    {
        r.push(v[i]);
        i += 1;
    }
    r
}

/// The length of the name that a name token gives.
fn name_end(token: &Vec<char>) -> (n: usize)
    ensures
        n == name_len(token@),
        n <= token.len(),
{
    let mut n: usize = 0;
    while n < token.len() && token[n] != '(' && !is_space_char(token[n])
        invariant
            n <= token.len(),
            forall|i: int| 0 <= i < n ==> #[trigger] token@[i] != '(' && !is_space(token@[i]),
        decreases token.len() - n,
    {
        n += 1;
    }
    proof {
        lemma_name_len_is(token@, n as int);
    }
    n
}

/// The length of the dollar-quote tag at the start of a word that opens a
/// body.
fn tag_end(word: &Vec<char>) -> (n: usize)
    requires
        opens_body(word@),
    ensures
        n == tag_len(word@),
        n <= word.len(),
{
    if word.len() <= 1 {
        return word.len();
    }
    let ghost rest = word@.drop_first();
    let mut n: usize = 1;
    while n < word.len() && word[n] != '$'
        invariant
            1 <= n <= word.len(),
            rest == word@.drop_first(),
            word@.last() == '$',
            forall|i: int| 0 <= i < n - 1 ==> #[trigger] rest[i] != '$',
        decreases word.len() - n,
    {
        assert(rest[n - 1] == word@[n as int]);
        n += 1;
    }
    proof {
        if n < word.len() {
            assert(rest[n - 1] == word@[n as int]);
        } else {
            assert(rest[n - 2] == word@.last());
        }
        lemma_dollar_offset_is(rest, n - 1);
    }
    n + 1
}

/// Whether a word is the keyword, whatever the case of its letters.
fn is_word(word: &Vec<char>, keyword: &str) -> (r: bool)
    ensures
        r == eq_ignore_case(word@, keyword@),
{
    let k = to_chars(keyword);
    eq_ignore_case_chars(word, &k)
}

fn word_opens_body(word: &Vec<char>) -> (r: bool)
    ensures
        r == opens_body(word@),
{
    word.len() > 0 && word[0] == '$' && word[word.len() - 1] == '$'
}

fn word_ends_statement(word: &Vec<char>) -> (r: bool)
    ensures
        r == ends_statement(word@),
{
    word.len() > 0 && word[word.len() - 1] == ';'
}

fn step_moved(state: State) -> (r: Result<Step, ParseErrorKind>)
    ensures
        step_matches(r, moved(state@)),
{
    Ok(Step { state, residual: String::new(), object: None })
}

fn step_passed(text: String) -> (r: Result<Step, ParseErrorKind>)
    ensures
        step_matches(r, passed(text@)),
{
    Ok(Step { state: State::Scanning, residual: text, object: None })
}

fn step_closed_or_closing(category: Category, name: String, text: String, word: &Vec<char>) -> (r:
    Result<Step, ParseErrorKind>)
    ensures
        step_matches(r, closed_or_closing(category, name@, text@, word@)),
{
    if word_ends_statement(word) {
        Ok(
            Step {
                state: State::Scanning,
                residual: String::new(),
                object: Some(SqlObject { category, name, body: text }),
            },
        )
    } else {
        step_moved(State::Closing { category, name, text })
    }
}

/// Reads one token: the scanner's whole logic, one token at a time.
pub fn step(state: State, token: &str) -> (r: Result<Step, ParseErrorKind>)
    ensures
        step_matches(r, step_of(state@, token@)),
{
    let t = to_chars(token);
    let word = trim_end_chars(&t);
    match state {
        State::Scanning => {
            if is_word(&word, "CREATE") {
                step_moved(State::Created { held: token.to_owned() })
            } else {
                step_passed(token.to_owned())
            }
        },
        State::Created { held } => {
            let mut held = held;
            if is_word(&word, "FUNCTION") {
                step_moved(
                    State::Naming {
                        category: Category::Function,
                        text: "CREATE OR REPLACE FUNCTION ".to_owned(),
                    },
                )
            } else if is_word(&word, "VIEW") {
                step_moved(
                    State::Naming {
                        category: Category::View,
                        text: "CREATE OR REPLACE VIEW ".to_owned(),
                    },
                )
            } else if is_word(&word, "MATERIALIZED") {
                held.append(token);
                step_moved(State::Materialized { held })
            } else {
                held.append(token);
                step_passed(held)
            }
        },
        State::Materialized { held } => {
            let mut held = held;
            if is_word(&word, "VIEW") {
                step_moved(
                    State::Naming {
                        category: Category::View,
                        text: "CREATE MATERIALIZED VIEW ".to_owned(),
                    },
                )
            } else {
                held.append(token);
                step_passed(held)
            }
        },
        State::Naming { category, text } => {
            let mut text = text;
            let n: usize = name_end(&t);
            if n == 0 {
                Err(ParseErrorKind::MissingName)
            } else {
                let name = string_of_range(&t, 0, n);
                text.append(token);
                if category == Category::View {
                    step_closed_or_closing(category, name, text, &word)
                } else {
                    step_moved(State::AwaitReturns { name, text })
                }
            }
        },
        State::AwaitReturns { name, text } => {
            let mut text = text;
            text.append(token);
            if is_word(&word, "RETURNS") {
                step_moved(State::AwaitType { name, text })
            } else {
                step_moved(State::AwaitReturns { name, text })
            }
        },
        State::AwaitType { name, text } => {
            let mut text = text;
            text.append(token);
            let category = if is_word(&word, "TRIGGER") {
                Category::Trigger
            } else {
                Category::Function
            };
            step_moved(State::AwaitBody { category, name, text })
        },
        State::AwaitBody { category, name, text } => {
            let mut text = text;
            text.append(token);
            if word_opens_body(&word) {
                let n: usize = tag_end(&word);
                let tag = copy_range(&word, 0, n);
                let rest = copy_range(&word, n, word.len());
                if contains_chars(&rest, &tag) {
                    step_closed_or_closing(category, name, text, &word)
                } else {
                    let tag = string_of_range(&word, 0, n);
                    step_moved(State::Body { category, name, tag, text })
                }
            } else {
                step_moved(State::AwaitBody { category, name, text })
            }
        },
        State::Body { category, name, tag, text } => {
            let mut text = text;
            text.append(token);
            let mark = to_chars(tag.as_str());
            if contains_chars(&t, &mark) {
                step_closed_or_closing(category, name, text, &word)
            } else {
                step_moved(State::Body { category, name, tag, text })
            }
        },
        State::Closing { category, name, text } => {
            let mut text = text;
            text.append(token);
            step_closed_or_closing(category, name, text, &word)
        },
    }
}

} // verus!
