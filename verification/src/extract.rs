//! Taking a whole dump apart: the scanner is run over the dump's tokens, the
//! objects it completes are collected, and what it leaves over becomes the
//! bootstrap migration.

use vstd::prelude::*;
use vstd::string::StringExecFns;
use crate::artifact::Category;
use crate::dump::{
    lemma_token_len, step, step_matches, step_of, token_end, tokens, ObjectView,
    ParseErrorKind, SqlObject, State, StateView, Step, StepView,
};
use crate::text::{filter_lines, filter_text_lines, string_of_range, to_chars, LineRule};

verus! {

/// A failure of the scanner: what was missing, the offset in characters at
/// which the unfinished statement begins, and the line of that offset,
/// counted from one.
#[derive(Clone, Copy, Debug, PartialEq, Eq, Structural)]
pub struct ParseError {
    pub kind: ParseErrorKind,
    pub offset: usize,
    pub line: usize,
}

/// What a dump yields: the objects taken out of it, at most one for each
/// category and name, and the text of the bootstrap migration.
#[derive(Debug, PartialEq, Eq)]
pub struct Extraction {
    pub objects: Vec<SqlObject>,
    pub bootstrap: String,
}

/// What an `Extraction` is in contracts.
pub struct ExtractionView {
    pub objects: Seq<ObjectView>,
    pub bootstrap: Seq<char>,
}

/// The views of a sequence of objects, in order.
pub open spec fn object_views(objects: Seq<SqlObject>) -> Seq<ObjectView> {
    objects.map_values(|o: SqlObject| o@)
}

impl View for Extraction {
    type V = ExtractionView;

    open spec fn view(&self) -> ExtractionView {
        ExtractionView { objects: object_views(self.objects@), bootstrap: self.bootstrap@ }
    }
}

/// How far a scan has come: the scanner's state, the residual and the objects
/// gathered so far, the number of characters read, and the offset at which
/// the statement in progress began.
pub struct Progress {
    pub state: StateView,
    pub residual: Seq<char>,
    pub objects: Seq<ObjectView>,
    pub offset: nat,
    pub start: nat,
}

/// A failure before its line is known.
pub struct Failure {
    pub kind: ParseErrorKind,
    pub offset: nat,
}

/// The scan before the first token.
pub open spec fn initial() -> Progress {
    Progress {
        state: StateView::Scanning,
        residual: Seq::empty(),
        objects: Seq::empty(),
        offset: 0,
        start: 0,
    }
}

/// The scan after an outcome of the scanner that used up `consumed`
/// characters. A statement begins where the scanner leaves its idle state.
pub open spec fn apply(p: Progress, outcome: Result<StepView, ParseErrorKind>, consumed: nat) -> Result<
    Progress,
    Failure,
> {
    let start = if p.state is Scanning {
        p.offset
    } else {
        p.start
    };
    match outcome {
        Err(kind) => Err(Failure { kind, offset: start }),
        Ok(s) => Ok(
            Progress {
                state: s.state,
                residual: p.residual + s.residual,
                objects: match s.object {
                    Some(o) => p.objects.push(o),
                    None => p.objects,
                },
                offset: p.offset + consumed,
                start,
            },
        ),
    }
}

/// The scan after one more token.
pub open spec fn advance(p: Progress, token: Seq<char>) -> Result<Progress, Failure> {
    apply(p, step_of(p.state, token), token.len())
}

/// The scan after all the given tokens; it stops at the first failure.
pub open spec fn scan(toks: Seq<Seq<char>>) -> Result<Progress, Failure>
    decreases toks.len(),
{
    if toks.len() == 0 {
        Ok(initial())
    } else {
        match scan(toks.drop_last()) {
            Err(f) => Err(f),
            Ok(p) => advance(p, toks.last()),
        }
    }
}

/// What the end of the input brings about in `state`. Words that were held
/// back fall to the residual. A function whose body was closed is complete
/// without its semicolon; every other unfinished statement is a failure.
pub open spec fn end_of(state: StateView) -> Result<StepView, ParseErrorKind> {
    match state {
        StateView::Scanning => crate::dump::passed(Seq::empty()),
        StateView::Created { held } => crate::dump::passed(held),
        StateView::Materialized { held } => crate::dump::passed(held),
        StateView::Naming { .. } => Err(ParseErrorKind::MissingName),
        StateView::AwaitReturns { .. } => Err(ParseErrorKind::MissingReturns),
        StateView::AwaitType { .. } => Err(ParseErrorKind::MissingReturnType),
        StateView::AwaitBody { .. } => Err(ParseErrorKind::MissingBody),
        StateView::Body { .. } => Err(ParseErrorKind::UnterminatedBody),
        StateView::Closing { category, name, text } => if category == Category::View {
            Err(ParseErrorKind::UnterminatedView)
        } else {
            crate::dump::completed(category, name, text)
        },
    }
}

/// Two objects that would be written to the same file.
pub open spec fn same_key(a: ObjectView, b: ObjectView) -> bool {
    a.category == b.category && a.name == b.name
}

/// Whether a later object of `all` takes the place of the one at `i`.
pub open spec fn superseded(all: Seq<ObjectView>, i: int) -> bool {
    exists|j: int| i < j < all.len() && same_key(all[i], #[trigger] all[j])
}

/// The objects among the first `k` of `all` that no later object of `all`
/// takes the place of, in order.
pub open spec fn survivors(all: Seq<ObjectView>, k: int) -> Seq<ObjectView>
    decreases k,
{
    if k <= 0 {
        Seq::empty()
    } else if superseded(all, k - 1) {
        survivors(all, k - 1)
    } else {
        survivors(all, k - 1).push(all[k - 1])
    }
}

/// Of several objects of one category and name the last one stays.
pub open spec fn last_wins(all: Seq<ObjectView>) -> Seq<ObjectView> {
    survivors(all, all.len() as int)
}

/// The number of line feeds in `s`.
pub open spec fn newlines(s: Seq<char>) -> nat
    decreases s.len(),
{
    if s.len() == 0 {
        0
    } else {
        newlines(s.drop_last()) + if s.last() == '\n' {
            1nat
        } else {
            0nat
        }
    }
}

/// The failure with its line: one more than the number of line feeds before
/// its offset.
pub open spec fn located(dump: Seq<char>, f: Failure) -> ParseError {
    ParseError {
        kind: f.kind,
        offset: f.offset as usize,
        line: (newlines(dump.take(f.offset as int)) + 1) as usize,
    }
}

/// What a dump yields, or where it fails.
pub open spec fn extraction(dump: Seq<char>) -> Result<ExtractionView, ParseError> {
    match scan(tokens(dump)) {
        Err(f) => Err(located(dump, f)),
        Ok(p) => match apply(p, end_of(p.state), 0) {
            Err(f) => Err(located(dump, f)),
            Ok(q) => Ok(
                ExtractionView {
                    objects: last_wins(q.objects),
                    bootstrap: filter_lines(q.residual, LineRule::DropDumpNoise),
                },
            ),
        },
    }
}

/// Whether a result of `extract` is the one that the contract names.
pub open spec fn extraction_matches(got: Result<Extraction, ParseError>, want: Result<
    ExtractionView,
    ParseError,
>) -> bool {
    match got {
        Ok(x) => want == Ok::<ExtractionView, ParseError>(x@),
        Err(e) => want == Err::<ExtractionView, ParseError>(e),
    }
}

/// A scan that has failed stays failed, whatever tokens follow.
pub proof fn lemma_scan_failure_is_final(done: Seq<Seq<char>>, more: Seq<Seq<char>>)
    requires
        scan(done) is Err,
    ensures
        scan(done + more) == scan(done),
    decreases more.len(),
{
    if more.len() == 0 {
        assert(done + more =~= done);
    } else {
        let all = done + more;
        assert(all.drop_last() =~= done + more.drop_last());
        lemma_scan_failure_is_final(done, more.drop_last());
    }
}

/// Ends a scan: what the end of the input brings about in `state`.
pub fn finish(state: State) -> (r: Result<Step, ParseErrorKind>)
    ensures
        step_matches(r, end_of(state@)),
{
    match state {
        State::Scanning => Ok(Step { state: State::Scanning, residual: String::new(), object: None }),
        State::Created { held } => Ok(Step { state: State::Scanning, residual: held, object: None }),
        State::Materialized { held } => Ok(
            Step { state: State::Scanning, residual: held, object: None },
        ),
        State::Naming { .. } => Err(ParseErrorKind::MissingName),
        State::AwaitReturns { .. } => Err(ParseErrorKind::MissingReturns),
        State::AwaitType { .. } => Err(ParseErrorKind::MissingReturnType),
        State::AwaitBody { .. } => Err(ParseErrorKind::MissingBody),
        State::Body { .. } => Err(ParseErrorKind::UnterminatedBody),
        State::Closing { category, name, text } => {
            if category == Category::View {
                Err(ParseErrorKind::UnterminatedView)
            } else {
                Ok(
                    Step {
                        state: State::Scanning,
                        residual: String::new(),
                        object: Some(SqlObject { category, name, body: text }),
                    },
                )
            }
        },
    }
}

/// Gives a failure its line.
fn locate(v: &Vec<char>, kind: ParseErrorKind, offset: usize) -> (e: ParseError)
    requires
        offset < v.len(),
    ensures
        e == located(v@, Failure { kind, offset: offset as nat }),
{
    let mut line: usize = 1;
    let mut i: usize = 0;
    assert(v@.take(0) =~= Seq::empty());
    while i < offset
        invariant
            i <= offset < v.len(),
            line == newlines(v@.take(i as int)) + 1,
            line <= i + 1,
        decreases offset - i,
    {
        proof {
            let next = v@.take(i + 1);
            assert(next.drop_last() =~= v@.take(i as int));
            assert(next.last() == v@[i as int]);
        }
        if v[i] == '\n' {
            line += 1;
        }
        i += 1;
    }
    ParseError { kind, offset, line }
}

fn is_scanning(state: &State) -> (r: bool)
    ensures
        r == (state@ is Scanning),
{
    match state {
        State::Scanning => true,
        _ => false,
    }
}

/// Keeps, of several objects of one category and name, the last one.
pub fn keep_last(all: &Vec<SqlObject>) -> (kept: Vec<SqlObject>)
    ensures
        object_views(kept@) == last_wins(object_views(all@)),
{
    let ghost views = object_views(all@);
    let mut kept: Vec<SqlObject> = Vec::new();
    let mut i: usize = 0;
    assert(object_views(kept@) =~= survivors(views, 0));
    while i < all.len()
        invariant
            i <= all.len(),
            views == object_views(all@),
            object_views(kept@) == survivors(views, i as int),
        decreases all.len() - i,
    {
        let mut replaced: bool = false;
        let mut j: usize = i + 1;
        while j < all.len() && !replaced
            invariant
                i < j <= all.len(),
                views == object_views(all@),
                !replaced ==> forall|k: int| i < k < j ==> !same_key(views[i as int], #[trigger] views[k]),
                replaced ==> superseded(views, i as int),
            decreases all.len() - j + if replaced { 0int } else { 1int },
        {
            if all[j].category == all[i].category && all[j].name == all[i].name {
                assert(same_key(views[i as int], views[j as int]));
                replaced = true;
            } else {
                j += 1;
            }
        }
        if !replaced {
            let ghost before = object_views(kept@);
            kept.push(all[i].duplicate());
            assert(object_views(kept@) =~= before.push(views[i as int]));
        }
        i += 1;
    }
    kept
}

/// Takes a dump apart. Statements that create a function or a view become
/// objects, the last of a name winning; the rest of the dump, without
/// comments, session settings of the dump tool and empty lines, becomes the
/// bootstrap migration. A statement that the dump leaves unfinished is a
/// failure, located at the statement's first token.
pub fn extract(dump: &str) -> (r: Result<Extraction, ParseError>)
    ensures
        extraction_matches(r, extraction(dump@)),
{
    let v = to_chars(dump);
    let mut state = State::Scanning;
    let mut residual = String::new();
    let mut objects: Vec<SqlObject> = Vec::new();
    let mut start: usize = 0;
    let mut i: usize = 0;
    let ghost mut done: Seq<Seq<char>> = Seq::empty();
    proof {
        assert(v@.skip(0) == v@);
        assert(done + tokens(v@) =~= tokens(v@));
        assert(object_views(objects@) =~= Seq::empty());
    }
    while i < v.len()
        invariant
            i <= v.len(),
            v@ == dump@,
            done + tokens(v@.skip(i as int)) == tokens(v@),
            scan(done) == Ok::<Progress, Failure>(
                Progress {
                    state: state@,
                    residual: residual@,
                    objects: object_views(objects@),
                    offset: i as nat,
                    start: start as nat,
                },
            ),
            !(state@ is Scanning) ==> start < v.len(),
        decreases v.len() - i,
    {
        let ghost rest = v@.skip(i as int);
        let ghost before = scan(done)->Ok_0;
        let end: usize = token_end(&v, i);
        let token = string_of_range(&v, i, end);
        proof {
            lemma_token_len(rest);
            assert(v@.subrange(i as int, end as int) == rest.take(end - i));
            if end < v.len() {
                assert(rest.skip(end - i) == v@.skip(end as int));
                assert(tokens(rest) == seq![token@] + tokens(v@.skip(end as int)));
            } else {
                assert(rest.take(end - i) == rest);
                assert(tokens(rest) == seq![token@]);
                assert(tokens(v@.skip(end as int)) == Seq::<Seq<char>>::empty());
            }
            assert(done.push(token@) + tokens(v@.skip(end as int)) =~= done + tokens(rest));
            assert(done.push(token@).drop_last() == done);
            assert(scan(done.push(token@)) == advance(before, token@));
        }
        if is_scanning(&state) {
            start = i;
        }
        match step(state, token.as_str()) {
            Err(kind) => {
                proof {
                    lemma_scan_failure_is_final(done.push(token@), tokens(v@.skip(end as int)));
                }
                return Err(locate(&v, kind, start));
            },
            Ok(s) => {
                let ghost old_objects = object_views(objects@);
                state = s.state;
                residual.append(s.residual.as_str());
                match s.object {
                    Some(o) => {
                        objects.push(o);
                        assert(object_views(objects@) =~= old_objects.push(o@));
                    },
                    None => {},
                }
            },
        }
        proof {
            done = done.push(token@);
        }
        i = end;
    }
    proof {
        assert(tokens(v@.skip(v.len() as int)) == Seq::<Seq<char>>::empty());
        assert(done + Seq::<Seq<char>>::empty() =~= done);
    }
    if is_scanning(&state) {
        start = i;
    }
    match finish(state) {
        Err(kind) => Err(locate(&v, kind, start)),
        Ok(s) => {
            let ghost old_objects = object_views(objects@);
            residual.append(s.residual.as_str());
            match s.object {
                Some(o) => {
                    objects.push(o);
                    assert(object_views(objects@) =~= old_objects.push(o@));
                },
                None => {},
            }
            Ok(
                Extraction {
                    objects: keep_last(&objects),
                    bootstrap: filter_text_lines(residual.as_str(), LineRule::DropDumpNoise),
                },
            )
        },
    }
}

} // verus!
