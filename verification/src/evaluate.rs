//! Evaluation of rules: the answers that a query, a body or a term has under a binding.
//!
//! A body is a disjunction of cases (`;`), each a conjunction (`,`) of processions, each
//! a sequence of steps (`->`) of which only the first answer of each step but the last is
//! carried on. A case may have a tail (`->>`): then only the first answer of its head goes
//! on into the tail, and the cases after it are not tried. A query is answered by the
//! clauses of the predicate it names, clause by clause; once the head of a clause of a
//! `Once` rule matches, the clauses after it are not tried.
//!
//! Evaluation asks for a number of answers and computes no more than it needs for them: a
//! step whose first answer is all that is carried on is asked for that one only, and the
//! answers of a conjunction are pulled from its first procession one at a time. It is
//! bounded too: each step of it spends one unit of the fuel it is given, and running out
//! is reported as [`EvalError::Exhausted`]. A native predicate is
//! answered from what its function gave for the same argument values, held in the native
//! answers that evaluation is given; where they do not hold it, evaluation stops with a
//! request for that call ([`EvalError::Native`]), which the host answers before evaluating
//! again.
use crate::apply::{apply_pattern, BindingError, APPLY_FUEL};
use crate::binding::{Binding, BindingView, self_pattern};
use crate::database::{Database, DatabaseDefinition, DefinitionView, EntryView, lookup_entry, alias_depth};
use crate::handle::{Handle, HandleView};
use crate::pattern::{Pattern, PatternKind, PatternList, list_pattern, pattern_eq};
use crate::unify::{unify_patterns, unify_patterns_spec, start_generation_spec, list_of_seq, lemma_list_roundtrip, UNIFY_FUEL};
use crate::variable::Variable;
use vstd::prelude::*;

verus! {

/// A term: a value, an operator applied to two terms, or the list of the values of a
/// pattern under every answer of a body.
#[derive(Debug)]
pub enum Term {
    /// A pattern standing for itself.
    Value(Pattern),
    /// An infix operator, answered as a query of the operator's predicate with the two
    /// operands and a fresh variable that stands for the result.
    InfixOp(Box<Term>, Handle, Box<Term>),
    /// The list of the pattern under each answer of the body, in order.
    ListAggregation(Pattern, Disjunction),
}

/// One step of a procession.
#[derive(Debug)]
pub enum Step {
    /// A query of a predicate with the values of the terms as its arguments.
    Query(Handle, Vec<Term>),
    /// A nested body.
    Body(Disjunction),
    /// The unification of the values of two terms.
    Unification(Term, Term),
}

/// Steps taken in turn, each with the first answer of the one before it.
#[derive(Debug)]
pub struct Procession {
    pub steps: Vec<Step>,
}

/// Processions that must all hold (`,`).
#[derive(Debug)]
pub struct Conjunction {
    pub terms: Vec<Procession>,
}

/// Cases of which any may hold (`;`), each with an optional tail (`->>`).
#[derive(Debug)]
pub struct Disjunction {
    pub cases: Vec<(Conjunction, Option<Conjunction>)>,
}

/// Whether a rule gives the answers of every clause whose head matches, or only of the
/// first.
#[derive(Clone, Copy, PartialEq, Eq, Structural, Debug)]
pub enum RuleKind {
    Multi,
    Once,
}

/// One clause of a rule: its head, its kind, its body (none for a fact) and the variables
/// of its body.
#[derive(Debug)]
pub struct Clause {
    pub head: Vec<Pattern>,
    pub kind: RuleKind,
    pub body: Option<Disjunction>,
    pub variables: Vec<Variable>,
}

/// Why evaluation stopped without its answers.
#[derive(Debug)]
pub enum EvalError {
    /// The fuel ran out, or a chain of aliases was too long to follow.
    Exhausted,
    /// A query named a mutable predicate, which evaluation does not handle.
    Mutable,
    /// A query needs what the native function at this position of the program's table
    /// gives for these argument values, and the native answers do not hold it yet: the
    /// host calls the function, adds what it gave to the native answers, and evaluates
    /// again.
    Native(usize, Vec<Pattern>),
    /// A binding could not be applied to a pattern: an answer of an aggregation to its
    /// pattern, or a binding to the arguments of a native function.
    Apply(BindingError),
}

/// The mathematical value of an [`EvalError`].
pub ghost enum EvalErrorView {
    Exhausted,
    Mutable,
    Native(usize, Seq<Pattern>),
    Apply(BindingError),
}

impl View for EvalError {
    type V = EvalErrorView;

    open spec fn view(&self) -> EvalErrorView {
        match self {
            EvalError::Exhausted => EvalErrorView::Exhausted,
            EvalError::Mutable => EvalErrorView::Mutable,
            EvalError::Native(i, args) => EvalErrorView::Native(*i, args@),
            EvalError::Apply(e) => EvalErrorView::Apply(*e),
        }
    }
}

/// What the host's native function at position `index` gave for the argument values
/// `inputs`: rows of values, each to be unified with the arguments of the query.
#[derive(Debug)]
pub struct NativeAnswer {
    pub index: usize,
    pub inputs: Vec<Pattern>,
    pub outputs: Vec<Vec<Pattern>>,
}

/// The answers of an evaluation, in order, or why it stopped.
pub type Answers = Result<Seq<BindingView>, EvalErrorView>;

/// The values of a sequence of bindings.
pub open spec fn views(v: Seq<Binding>) -> Seq<BindingView> {
    v.map_values(|b: Binding| b@)
}

/// Every binding of `s` is well formed.
pub open spec fn all_wf(s: Seq<BindingView>) -> bool {
    forall|k: int| 0 <= k < s.len() ==> #[trigger] s[k].wf()
}

/// Whether an executable result stands for the answers `s`, each well formed.
pub open spec fn answered(r: Result<Vec<Binding>, EvalError>, s: Answers) -> bool {
    match r {
        Ok(v) => s == Answers::Ok(views(v@)) && all_wf(views(v@)),
        Err(e) => s == Answers::Err(e@),
    }
}

/// The answers of `first` followed by those of `rest`; the first error stops them.
pub open spec fn then_all(first: Answers, rest: Answers) -> Answers {
    match first {
        Err(e) => Err(e),
        Ok(a) => match rest {
            Err(e) => Err(e),
            Ok(r) => Ok(a + r),
        },
    }
}

/// An answer of a clause's body with the clause's generation ended.
pub open spec fn ended(b: BindingView) -> BindingView {
    if b.generations.len() >= 2 {
        BindingView { generations: b.generations.drop_last(), ..b }
    } else {
        b
    }
}

/// `p` under each binding of `bs`, in order; the first binding that cannot be applied stops
/// it.
pub open spec fn applied_all(p: Pattern, bs: Seq<BindingView>) -> Result<Seq<Pattern>, BindingError>
    decreases bs.len(),
{
    if bs.len() == 0 {
        Ok(Seq::empty())
    } else {
        match applied_all(p, bs.drop_last()) {
            Err(e) => Err(e),
            Ok(items) => match apply_pattern(bs.last(), p, APPLY_FUEL as nat) {
                Err(e) => Err(e),
                Ok(q) => Ok(items.push(q)),
            },
        }
    }
}

/// Two sequences of patterns are the same, pattern by pattern; see [`pattern_eq`].
pub open spec fn same_patterns(a: Seq<Pattern>, b: Seq<Pattern>) -> bool {
    a.len() == b.len() && forall|k: int| 0 <= k < a.len() ==> #[trigger] pattern_eq(a[k], b[k])
}

/// The rows that the native answers from the `j`-th on give for the function at position
/// `i` called with `inputs`: those of the first answer for that call.
pub open spec fn native_rows(natives: Seq<NativeAnswer>, i: usize, inputs: Seq<Pattern>, j: int) -> Option<Seq<Vec<Pattern>>>
    decreases natives.len() - j,
{
    if j < 0 || j >= natives.len() {
        None
    } else if natives[j].index == i && same_patterns(natives[j].inputs@, inputs) {
        Some(natives[j].outputs@)
    } else {
        native_rows(natives, i, inputs, j + 1)
    }
}

/// `b` applied to each of `args`, in order; the first that cannot be applied stops it.
pub open spec fn applied_args(b: BindingView, args: Seq<Pattern>) -> Result<Seq<Pattern>, BindingError>
    decreases args.len(),
{
    if args.len() == 0 {
        Ok(Seq::empty())
    } else {
        match applied_args(b, args.drop_last()) {
            Err(e) => Err(e),
            Ok(items) => match apply_pattern(b, args.last(), APPLY_FUEL as nat) {
                Err(e) => Err(e),
                Ok(q) => Ok(items.push(q)),
            },
        }
    }
}

/// The binding after unifying each value of a row, from the `k`-th on, with the argument
/// at the same place, as far as the shorter of the two goes; `None` when one does not
/// unify.
pub open spec fn unify_row(row: Seq<Pattern>, args: Seq<Pattern>, b: BindingView, k: int) -> Option<BindingView>
    decreases row.len() - k,
{
    if k < 0 || k >= row.len() || k >= args.len() {
        Some(b)
    } else {
        match unify_patterns_spec(row[k], args[k], b, UNIFY_FUEL as nat) {
            None => None,
            Some(b2) => unify_row(row, args, b2, k + 1),
        }
    }
}

/// The bindings in which the rows of a native function's answer unify with the arguments,
/// in order.
pub open spec fn rows_answers(rows: Seq<Vec<Pattern>>, args: Seq<Pattern>, b: BindingView) -> Seq<BindingView>
    decreases rows.len(),
{
    if rows.len() == 0 {
        Seq::empty()
    } else {
        let before = rows_answers(rows.drop_last(), args, b);
        match unify_row(rows.last()@, args, b, 0) {
            Some(b2) => before.push(b2),
            None => before,
        }
    }
}

/// The answers of the clauses of `clauses` from the `i`-th on, queried with `args` under
/// `b`. A clause whose head does not match is passed over; one that matches gives the
/// answers of its body (of a fact, the binding in which its head matched), each with the
/// `s`, or its first `n` items when it has more.
pub open spec fn limited<A>(s: Seq<A>, n: nat) -> Seq<A> {
    if s.len() <= n {
        s
    } else {
        s.take(n as int)
    }
}

/// The number of answers asked for when all of them are wanted.
pub open spec fn all_answers() -> nat {
    usize::MAX as nat
}

/// The first `n` answers of the clauses of `clauses` from the `i`-th on, queried with
/// `args` under `b`. A clause whose head does not match is passed over; one that matches
/// gives the answers of its body (of a fact, the binding in which its head matched), each
/// with the clause's generation ended; then, unless it is of a `Once` rule or `n` answers
/// are found, the later clauses give theirs.
pub open spec fn clauses_answers(db: Seq<(HandleView, EntryView<Clause>)>, natives: Seq<NativeAnswer>, clauses: Seq<Clause>, i: int, args: Seq<Pattern>, b: BindingView, public: bool, n: nat, fuel: nat) -> Answers
    decreases fuel,
{
    if fuel == 0 {
        Err(EvalErrorView::Exhausted)
    } else if n == 0 || i < 0 || i >= clauses.len() {
        Ok(Seq::empty())
    } else if b.next_generation >= usize::MAX {
        Err(EvalErrorView::Exhausted)
    } else {
        let f = (fuel - 1) as nat;
        let c = clauses[i];
        match start_generation_spec(b, c.variables@, args, c.head@) {
            None => clauses_answers(db, natives, clauses, i + 1, args, b, public, n, f),
            Some(b1) => {
                let body = match c.body {
                    None => Answers::Ok(seq![b1]),
                    Some(d) => disjunction_answers(db, natives, d.cases@, 0, b1, false, n, f),
                };
                match body {
                    Err(e) => Err(e),
                    Ok(found) => {
                        let mine = found.map_values(|a: BindingView| ended(a));
                        if c.kind == RuleKind::Once || mine.len() >= n {
                            Ok(mine)
                        } else {
                            then_all(Ok(mine), clauses_answers(db, natives, clauses, i + 1, args, b, public, (n - mine.len()) as nat, f))
                        }
                    },
                }
            },
        }
    }
}

/// The first `n` answers of the cases of a disjunction from the `i`-th on under `b`: a case
/// without a tail gives the answers of its head, then the later cases give theirs; a case
/// with a tail whose head has an answer gives the answers of its tail under the first of
/// them, and the later cases are not tried; one whose head has none passes to the next.
pub open spec fn disjunction_answers(db: Seq<(HandleView, EntryView<Clause>)>, natives: Seq<NativeAnswer>, cases: Seq<(Conjunction, Option<Conjunction>)>, i: int, b: BindingView, public: bool, n: nat, fuel: nat) -> Answers
    decreases fuel,
{
    if fuel == 0 {
        Err(EvalErrorView::Exhausted)
    } else if n == 0 || i < 0 || i >= cases.len() {
        Ok(Seq::empty())
    } else {
        let f = (fuel - 1) as nat;
        match cases[i].1 {
            None => match conjunction_answers(db, natives, cases[i].0.terms@, 0, b, public, n, f) {
                Err(e) => Err(e),
                Ok(found) => if found.len() >= n {
                    Ok(found)
                } else {
                    then_all(Ok(found), disjunction_answers(db, natives, cases, i + 1, b, public, (n - found.len()) as nat, f))
                },
            },
            Some(tail) => match conjunction_answers(db, natives, cases[i].0.terms@, 0, b, public, 1, f) {
                Err(e) => Err(e),
                Ok(found) => if found.len() == 0 {
                    disjunction_answers(db, natives, cases, i + 1, b, public, n, f)
                } else {
                    conjunction_answers(db, natives, tail.terms@, 0, found[0], public, n, f)
                },
            },
        }
    }
}

/// The first `n` answers of the processions of a conjunction from the `i`-th on under `b`:
/// each answer of the `i`-th in turn is carried into the rest.
pub open spec fn conjunction_answers(db: Seq<(HandleView, EntryView<Clause>)>, natives: Seq<NativeAnswer>, ps: Seq<Procession>, i: int, b: BindingView, public: bool, n: nat, fuel: nat) -> Answers
    decreases fuel,
{
    if fuel == 0 {
        Err(EvalErrorView::Exhausted)
    } else if n == 0 {
        Ok(Seq::empty())
    } else if i < 0 || i >= ps.len() {
        Ok(seq![b])
    } else {
        conjunction_from(db, natives, ps, i, b, 0, public, n, (fuel - 1) as nat)
    }
}

/// The first `n` answers of the processions from the `i + 1`-th on under the answers of the
/// `i`-th from its `k`-th on: the `k`-th answer of the `i`-th is asked for only when the
/// answers under the earlier ones are fewer than `n`.
pub open spec fn conjunction_from(db: Seq<(HandleView, EntryView<Clause>)>, natives: Seq<NativeAnswer>, ps: Seq<Procession>, i: int, b: BindingView, k: nat, public: bool, n: nat, fuel: nat) -> Answers
    decreases fuel,
{
    if fuel == 0 {
        Err(EvalErrorView::Exhausted)
    } else if n == 0 || i < 0 || i >= ps.len() || k >= usize::MAX {
        Ok(Seq::empty())
    } else {
        let f = (fuel - 1) as nat;
        match procession_answers(db, natives, ps[i].steps@, 0, b, public, k + 1, f) {
            Err(e) => Err(e),
            Ok(src) => if src.len() <= k {
                Ok(Seq::empty())
            } else {
                match conjunction_answers(db, natives, ps, i + 1, src[k as int], public, n, f) {
                    Err(e) => Err(e),
                    Ok(first) => if first.len() >= n {
                        Ok(first)
                    } else {
                        then_all(Ok(first), conjunction_from(db, natives, ps, i, b, k + 1, public, (n - first.len()) as nat, f))
                    },
                }
            },
        }
    }
}

/// The first `n` answers of the steps of a procession from the `i`-th on under `b`: each
/// step before the last is asked for its first answer only, and the next goes on with it;
/// the last gives its answers.
pub open spec fn procession_answers(db: Seq<(HandleView, EntryView<Clause>)>, natives: Seq<NativeAnswer>, steps: Seq<Step>, i: int, b: BindingView, public: bool, n: nat, fuel: nat) -> Answers
    decreases fuel,
{
    if fuel == 0 {
        Err(EvalErrorView::Exhausted)
    } else if n == 0 {
        Ok(Seq::empty())
    } else if i < 0 || i >= steps.len() {
        Ok(seq![b])
    } else {
        let f = (fuel - 1) as nat;
        if i + 1 >= steps.len() {
            step_answers(db, natives, steps[i], b, public, n, f)
        } else {
            match step_answers(db, natives, steps[i], b, public, 1, f) {
                Err(e) => Err(e),
                Ok(found) => if found.len() == 0 {
                    Ok(Seq::empty())
                } else {
                    procession_answers(db, natives, steps, i + 1, found[0], public, n, f)
                },
            }
        }
    }
}

/// The first `n` answers of one step under `b`.
pub open spec fn step_answers(db: Seq<(HandleView, EntryView<Clause>)>, natives: Seq<NativeAnswer>, step: Step, b: BindingView, public: bool, n: nat, fuel: nat) -> Answers
    decreases fuel,
{
    if fuel == 0 {
        Err(EvalErrorView::Exhausted)
    } else if n == 0 {
        Ok(Seq::empty())
    } else {
        let f = (fuel - 1) as nat;
        match step {
            Step::Query(h, args) => query_from(db, natives, h@, args@, b, 0, public, n, f),
            Step::Body(d) => disjunction_answers(db, natives, d.cases@, 0, b, public, n, f),
            Step::Unification(lhs, rhs) => unification_from(db, natives, lhs, rhs, b, 0, public, n, f),
        }
    }
}

/// The first `n` bindings in which the value of `lhs` unifies with the value of `rhs`,
/// under the bindings in which `lhs` holds from the `k`-th on.
pub open spec fn unification_from(db: Seq<(HandleView, EntryView<Clause>)>, natives: Seq<NativeAnswer>, lhs: Term, rhs: Term, b: BindingView, k: nat, public: bool, n: nat, fuel: nat) -> Answers
    decreases fuel,
{
    if fuel == 0 {
        Err(EvalErrorView::Exhausted)
    } else if n == 0 || k >= usize::MAX {
        Ok(Seq::empty())
    } else {
        let f = (fuel - 1) as nat;
        match term_answers(db, natives, lhs, b, public, k + 1, f) {
            Err(e) => Err(e),
            Ok((lp, src)) => if src.len() <= k {
                Ok(Seq::empty())
            } else {
                match unification_right(db, natives, lp, rhs, src[k as int], 0, public, n, f) {
                    Err(e) => Err(e),
                    Ok(first) => if first.len() >= n {
                        Ok(first)
                    } else {
                        then_all(Ok(first), unification_from(db, natives, lhs, rhs, b, k + 1, public, (n - first.len()) as nat, f))
                    },
                }
            },
        }
    }
}

/// The first `n` bindings in which `lp` unifies with the value of `rhs`, under the bindings
/// in which `rhs` holds from the `k`-th on.
pub open spec fn unification_right(db: Seq<(HandleView, EntryView<Clause>)>, natives: Seq<NativeAnswer>, lp: Pattern, rhs: Term, c: BindingView, k: nat, public: bool, n: nat, fuel: nat) -> Answers
    decreases fuel,
{
    if fuel == 0 {
        Err(EvalErrorView::Exhausted)
    } else if n == 0 || k >= usize::MAX {
        Ok(Seq::empty())
    } else {
        let f = (fuel - 1) as nat;
        match term_answers(db, natives, rhs, c, public, k + 1, f) {
            Err(e) => Err(e),
            Ok((rp, src)) => if src.len() <= k {
                Ok(Seq::empty())
            } else {
                let first = match unify_patterns_spec(lp, rp, src[k as int], UNIFY_FUEL as nat) {
                    Some(b2) => seq![b2],
                    None => Seq::empty(),
                };
                if first.len() >= n {
                    Ok(first)
                } else {
                    then_all(Ok(first), unification_right(db, natives, lp, rhs, c, k + 1, public, (n - first.len()) as nat, f))
                }
            },
        }
    }
}

/// The first `n` values of the terms from the `i`-th on under `b`, added to `acc`, each with
/// the binding it holds in.
pub open spec fn terms_answers(db: Seq<(HandleView, EntryView<Clause>)>, natives: Seq<NativeAnswer>, terms: Seq<Term>, i: int, acc: Seq<Pattern>, b: BindingView, public: bool, n: nat, fuel: nat) -> Result<Seq<(Seq<Pattern>, BindingView)>, EvalErrorView>
    decreases fuel,
{
    if fuel == 0 {
        Err(EvalErrorView::Exhausted)
    } else if n == 0 {
        Ok(Seq::empty())
    } else if i < 0 || i >= terms.len() {
        Ok(seq![(acc, b)])
    } else {
        terms_from(db, natives, terms, i, acc, b, 0, public, n, (fuel - 1) as nat)
    }
}

/// The first `n` values of the terms from the `i`-th on, under the bindings in which the
/// `i`-th holds from the `k`-th on.
pub open spec fn terms_from(db: Seq<(HandleView, EntryView<Clause>)>, natives: Seq<NativeAnswer>, terms: Seq<Term>, i: int, acc: Seq<Pattern>, b: BindingView, k: nat, public: bool, n: nat, fuel: nat) -> Result<Seq<(Seq<Pattern>, BindingView)>, EvalErrorView>
    decreases fuel,
{
    if fuel == 0 {
        Err(EvalErrorView::Exhausted)
    } else if n == 0 || i < 0 || i >= terms.len() || k >= usize::MAX {
        Ok(Seq::empty())
    } else {
        let f = (fuel - 1) as nat;
        match term_answers(db, natives, terms[i], b, public, k + 1, f) {
            Err(e) => Err(e),
            Ok((p, src)) => if src.len() <= k {
                Ok(Seq::empty())
            } else {
                match terms_answers(db, natives, terms, i + 1, acc.push(p), src[k as int], public, n, f) {
                    Err(e) => Err(e),
                    Ok(first) => if first.len() >= n {
                        Ok(first)
                    } else {
                        match terms_from(db, natives, terms, i, acc, b, k + 1, public, (n - first.len()) as nat, f) {
                            Err(e) => Err(e),
                            Ok(rest) => Ok(first + rest),
                        }
                    },
                }
            },
        }
    }
}

/// The first `n` answers of the query of `h` with the values of `args`, taken from the
/// `k`-th value of the arguments on.
pub open spec fn query_from(db: Seq<(HandleView, EntryView<Clause>)>, natives: Seq<NativeAnswer>, h: HandleView, args: Seq<Term>, b: BindingView, k: nat, public: bool, n: nat, fuel: nat) -> Answers
    decreases fuel,
{
    if fuel == 0 {
        Err(EvalErrorView::Exhausted)
    } else if n == 0 || k >= usize::MAX {
        Ok(Seq::empty())
    } else {
        let f = (fuel - 1) as nat;
        match terms_answers(db, natives, args, 0, Seq::empty(), b, public, k + 1, f) {
            Err(e) => Err(e),
            Ok(pairs) => if pairs.len() <= k {
                Ok(Seq::empty())
            } else {
                match query_answers(db, natives, h, pairs[k as int].0, pairs[k as int].1, public, n, f) {
                    Err(e) => Err(e),
                    Ok(first) => if first.len() >= n {
                        Ok(first)
                    } else {
                        then_all(Ok(first), query_from(db, natives, h, args, b, k + 1, public, (n - first.len()) as nat, f))
                    },
                }
            },
        }
    }
}

/// The first `n` answers of the query of `h` with `args` under `b`: none when `h` names
/// nothing (that `public` may see); those of its clauses when it is defined by rules; when
/// it is a native function, the rows that the native answers hold for the values of the
/// arguments, each unified with the arguments, or else a request for that call.
pub open spec fn query_answers(db: Seq<(HandleView, EntryView<Clause>)>, natives: Seq<NativeAnswer>, h: HandleView, args: Seq<Pattern>, b: BindingView, public: bool, n: nat, fuel: nat) -> Answers
    decreases fuel,
{
    if fuel == 0 {
        Err(EvalErrorView::Exhausted)
    } else if n == 0 {
        Ok(Seq::empty())
    } else {
        let f = (fuel - 1) as nat;
        match lookup_entry(db, h, public, alias_depth(db.len())) {
            Err(_) => Err(EvalErrorView::Exhausted),
            Ok(None) => Ok(Seq::empty()),
            Ok(Some(d)) => match d {
                DefinitionView::Static(clauses) => clauses_answers(db, natives, clauses, 0, args, b, public, n, f),
                DefinitionView::Mutable(_) => Err(EvalErrorView::Mutable),
                DefinitionView::Alias(_) => Ok(Seq::empty()),
                DefinitionView::Native(i) => match applied_args(b, args) {
                    Err(e) => Err(EvalErrorView::Apply(e)),
                    Ok(inputs) => match native_rows(natives, i, inputs, 0) {
                        None => Err(EvalErrorView::Native(i, inputs)),
                        Some(rows) => Ok(limited(rows_answers(rows, args, b), n)),
                    },
                },
            },
        }
    }
}

/// The value of a term under `b`, with the first `n` bindings in which it holds. An
/// operator's value is a fresh variable, bound by the query of the operator's predicate
/// with the two operands; an aggregation's value is the list of its pattern under every
/// answer of its body, and it holds in `b` itself.
pub open spec fn term_answers(db: Seq<(HandleView, EntryView<Clause>)>, natives: Seq<NativeAnswer>, t: Term, b: BindingView, public: bool, n: nat, fuel: nat) -> Result<(Pattern, Seq<BindingView>), EvalErrorView>
    decreases fuel,
{
    if fuel == 0 {
        Err(EvalErrorView::Exhausted)
    } else {
        let f = (fuel - 1) as nat;
        let here: Seq<BindingView> = if n == 0 { Seq::empty() } else { seq![b] };
        match t {
            Term::Value(p) => Ok((p, here)),
            Term::InfixOp(lhs, op, rhs) => {
                let dest = self_pattern(b.next_fresh());
                match infix_from(db, natives, *lhs, op@, *rhs, dest, b.with_fresh(), 0, public, n, f) {
                    Err(e) => Err(e),
                    Ok(a) => Ok((dest, a)),
                }
            },
            Term::ListAggregation(p, body) => match disjunction_answers(db, natives, body.cases@, 0, b, public, all_answers(), f) {
                Err(e) => Err(e),
                Ok(found) => match applied_all(p, found) {
                    Err(e) => Err(EvalErrorView::Apply(e)),
                    Ok(items) => Ok((list_pattern(list_of_seq(items), None), here)),
                },
            },
        }
    }
}

/// The first `n` answers of the query of `op` with the value of `lhs`, the value of `rhs`
/// and `dest`, under the bindings in which `lhs` holds from the `k`-th on.
pub open spec fn infix_from(db: Seq<(HandleView, EntryView<Clause>)>, natives: Seq<NativeAnswer>, lhs: Term, op: HandleView, rhs: Term, dest: Pattern, b: BindingView, k: nat, public: bool, n: nat, fuel: nat) -> Answers
    decreases fuel,
{
    if fuel == 0 {
        Err(EvalErrorView::Exhausted)
    } else if n == 0 || k >= usize::MAX {
        Ok(Seq::empty())
    } else {
        let f = (fuel - 1) as nat;
        match term_answers(db, natives, lhs, b, public, k + 1, f) {
            Err(e) => Err(e),
            Ok((lp, src)) => if src.len() <= k {
                Ok(Seq::empty())
            } else {
                match infix_right(db, natives, lp, op, rhs, dest, src[k as int], 0, public, n, f) {
                    Err(e) => Err(e),
                    Ok(first) => if first.len() >= n {
                        Ok(first)
                    } else {
                        then_all(Ok(first), infix_from(db, natives, lhs, op, rhs, dest, b, k + 1, public, (n - first.len()) as nat, f))
                    },
                }
            },
        }
    }
}

/// The first `n` answers of the query of `op` with `lp`, the value of `rhs` and `dest`,
/// under the bindings in which `rhs` holds from the `k`-th on.
pub open spec fn infix_right(db: Seq<(HandleView, EntryView<Clause>)>, natives: Seq<NativeAnswer>, lp: Pattern, op: HandleView, rhs: Term, dest: Pattern, c: BindingView, k: nat, public: bool, n: nat, fuel: nat) -> Answers
    decreases fuel,
{
    if fuel == 0 {
        Err(EvalErrorView::Exhausted)
    } else if n == 0 || k >= usize::MAX {
        Ok(Seq::empty())
    } else {
        let f = (fuel - 1) as nat;
        match term_answers(db, natives, rhs, c, public, k + 1, f) {
            Err(e) => Err(e),
            Ok((rp, src)) => if src.len() <= k {
                Ok(Seq::empty())
            } else {
                match query_answers(db, natives, op, seq![lp, rp, dest], src[k as int], public, n, f) {
                    Err(e) => Err(e),
                    Ok(first) => if first.len() >= n {
                        Ok(first)
                    } else {
                        then_all(Ok(first), infix_right(db, natives, lp, op, rhs, dest, c, k + 1, public, (n - first.len()) as nat, f))
                    },
                }
            },
        }
    }
}

/// The first `n` answers of a definition given as its clauses, queried with `args` under
/// `binding`.
pub open spec fn definition_answers(db: Seq<(HandleView, EntryView<Clause>)>, natives: Seq<NativeAnswer>, clauses: Seq<Clause>, args: Seq<Pattern>, binding: BindingView, public: bool, n: nat, fuel: nat) -> Answers {
    clauses_answers(db, natives, clauses, 0, args, binding, public, n, fuel)
}

/// The first `n` answers of a body under `binding`.
pub open spec fn body_answers(db: Seq<(HandleView, EntryView<Clause>)>, natives: Seq<NativeAnswer>, body: Disjunction, binding: BindingView, public: bool, n: nat, fuel: nat) -> Answers {
    disjunction_answers(db, natives, body.cases@, 0, binding, public, n, fuel)
}

/// Whether an executable result stands for the sequence of pairs `s`, each binding well
/// formed.
pub open spec fn answered_pairs(r: Result<Vec<(Vec<Pattern>, Binding)>, EvalError>, s: Result<Seq<(Seq<Pattern>, BindingView)>, EvalErrorView>) -> bool {
    match r {
        Ok(v) => s == Result::<Seq<(Seq<Pattern>, BindingView)>, EvalErrorView>::Ok(pair_views(v@)) && pairs_wf(v@),
        Err(e) => s == Result::<Seq<(Seq<Pattern>, BindingView)>, EvalErrorView>::Err(e@),
    }
}

/// The values of a sequence of pairs of arguments and binding.
pub open spec fn pair_views(v: Seq<(Vec<Pattern>, Binding)>) -> Seq<(Seq<Pattern>, BindingView)> {
    v.map_values(|p: (Vec<Pattern>, Binding)| (p.0@, p.1@))
}

/// Every binding of a sequence of pairs is well formed.
pub open spec fn pairs_wf(v: Seq<(Vec<Pattern>, Binding)>) -> bool {
    forall|k: int| 0 <= k < v.len() ==> (#[trigger] v[k]).1@.wf()
}

/// Whether an executable result stands for the value and answers `s`.
pub open spec fn answered_term(r: Result<(Pattern, Vec<Binding>), EvalError>, s: Result<(Pattern, Seq<BindingView>), EvalErrorView>) -> bool {
    match r {
        Ok((p, v)) => s == Result::<(Pattern, Seq<BindingView>), EvalErrorView>::Ok((p, views(v@))) && all_wf(views(v@)),
        Err(e) => s == Result::<(Pattern, Seq<BindingView>), EvalErrorView>::Err(e@),
    }
}

/// No answer.
fn no_answers() -> (r: Vec<Binding>)
    ensures
        views(r@) == Seq::<BindingView>::empty(),
        all_wf(views(r@)),
{
    let r: Vec<Binding> = Vec::new();
    proof {
        assert(views(r@) =~= Seq::<BindingView>::empty());
    }
    r
}

/// The one answer `b`.
fn one_answer(b: &Binding) -> (r: Vec<Binding>)
    requires
        b@.wf(),
    ensures
        views(r@) == seq![b@],
        all_wf(views(r@)),
{
    let mut r: Vec<Binding> = Vec::new();
    r.push(b.copy());
    proof {
        assert(views(r@) =~= seq![b@]);
    }
    r
}

/// The answers of `a` followed by those of `b`.
fn joined(a: Vec<Binding>, b: Vec<Binding>) -> (r: Vec<Binding>)
    requires
        all_wf(views(a@)),
        all_wf(views(b@)),
    ensures
        views(r@) == views(a@) + views(b@),
        all_wf(views(r@)),
{
    let ghost a0 = a@;
    let ghost b0 = b@;
    let mut a = a;
    let mut b = b;
    a.append(&mut b);
    proof {
        assert(views(a@) =~= views(a0) + views(b0));
        assert forall|k: int| 0 <= k < views(a@).len() implies #[trigger] views(a@)[k].wf() by {
            if k < a0.len() {
                assert(views(a0)[k].wf());
            } else {
                assert(views(b0)[k - a0.len()].wf());
            }
        }
    }
    a
}

/// The pairs of `a` followed by those of `b`.
fn joined_pairs(a: Vec<(Vec<Pattern>, Binding)>, b: Vec<(Vec<Pattern>, Binding)>) -> (r: Vec<(Vec<Pattern>, Binding)>)
    requires
        pairs_wf(a@),
        pairs_wf(b@),
    ensures
        pair_views(r@) == pair_views(a@) + pair_views(b@),
        pairs_wf(r@),
{
    let ghost a0 = a@;
    let ghost b0 = b@;
    let mut a = a;
    let mut b = b;
    a.append(&mut b);
    proof {
        assert(pair_views(a@) =~= pair_views(a0) + pair_views(b0));
        assert forall|k: int| 0 <= k < a@.len() implies (#[trigger] a@[k]).1@.wf() by {
            if k < a0.len() {
                assert(a0[k].1@.wf());
            } else {
                assert(b0[k - a0.len()].1@.wf());
            }
        }
    }
    a
}

/// A copy of a sequence of patterns.
fn copy_patterns(v: &Vec<Pattern>) -> (r: Vec<Pattern>)
    ensures
        r@ == v@,
{
    let mut r: Vec<Pattern> = Vec::new();
    let mut k: usize = 0;
    while k < v.len()
        invariant
            k <= v.len(),
            r@ == v@.take(k as int),
        decreases v.len() - k,
    {
        r.push(v[k].copy());
        k = k + 1;
        proof {
            assert(r@ =~= v@.take(k as int));
        }
    }
    proof {
        assert(v@.take(k as int) =~= v@);
    }
    r
}

/// Each answer of a clause's body with the clause's generation ended; see [`ended`].
fn ended_all(found: &Vec<Binding>) -> (r: Vec<Binding>)
    requires
        all_wf(views(found@)),
    ensures
        views(r@) == views(found@).map_values(|a: BindingView| ended(a)),
        all_wf(views(r@)),
{
    let mut r: Vec<Binding> = Vec::new();
    let mut k: usize = 0;
    while k < found.len()
        invariant
            k <= found.len(),
            all_wf(views(found@)),
            r@.len() == k,
            forall|m: int| 0 <= m < k ==> (#[trigger] r@[m])@ == ended(found@[m]@) && r@[m]@.wf(),
        decreases found.len() - k,
    {
        let a = found[k].copy();
        proof {
            assert(views(found@)[k as int].wf());
        }
        let e = if a.depth() >= 2 {
            a.end_generation()
        } else {
            a
        };
        r.push(e);
        k = k + 1;
    }
    proof {
        assert(views(r@) =~= views(found@).map_values(|a: BindingView| ended(a)));
    }
    r
}

/// The answers that a value holds in: `b`, when any is asked for.
fn here_answers(b: &Binding, n: usize) -> (r: Vec<Binding>)
    requires
        b@.wf(),
    ensures
        views(r@) == (if n == 0 { Seq::<BindingView>::empty() } else { seq![b@] }),
        all_wf(views(r@)),
{
    if n == 0 {
        no_answers()
    } else {
        one_answer(b)
    }
}

/// The first `n` answers of `v`; see [`limited`].
fn limit_answers(v: Vec<Binding>, n: usize) -> (r: Vec<Binding>)
    requires
        all_wf(views(v@)),
    ensures
        views(r@) == limited(views(v@), n as nat),
        all_wf(views(r@)),
{
    let ghost v0 = v@;
    let mut v = v;
    v.truncate(n);
    proof {
        if v0.len() > n {
            assert(views(v@) =~= views(v0).take(n as int));
        } else {
            assert(views(v@) =~= views(v0));
        }
        assert forall|k: int| 0 <= k < views(v@).len() implies #[trigger] views(v@)[k].wf() by {
            assert(views(v@)[k] == views(v0)[k]);
        }
    }
    v
}


/// `b` applied to each of `args`; see [`applied_args`].
fn apply_args(b: &Binding, args: &[Pattern]) -> (r: Result<Vec<Pattern>, BindingError>)
    requires
        b@.wf(),
    ensures
        match r {
            Ok(items) => applied_args(b@, args@) == Result::<Seq<Pattern>, BindingError>::Ok(items@),
            Err(e) => applied_args(b@, args@) == Result::<Seq<Pattern>, BindingError>::Err(e),
        },
{
    let mut items: Vec<Pattern> = Vec::new();
    let mut k: usize = 0;
    proof {
        assert(args@.take(0) =~= Seq::<Pattern>::empty());
    }
    while k < args.len()
        invariant
            k <= args.len(),
            b@.wf(),
            applied_args(b@, args@.take(k as int)) == Result::<Seq<Pattern>, BindingError>::Ok(items@),
        decreases args.len() - k,
    {
        proof {
            assert(args@.take(k + 1).drop_last() =~= args@.take(k as int));
        }
        match b.apply(&args[k]) {
            Err(e) => {
                proof {
                    lemma_applied_args_prefix_error(b@, args@, k + 1);
                }
                return Err(e);
            },
            Ok(q) => {
                items.push(q);
            },
        }
        k = k + 1;
    }
    proof {
        assert(args@.take(k as int) =~= args@);
    }
    Ok(items)
}

/// Once a prefix of the arguments cannot be applied, neither can all of them.
proof fn lemma_applied_args_prefix_error(b: BindingView, args: Seq<Pattern>, n: int)
    requires
        0 <= n <= args.len(),
        applied_args(b, args.take(n)) is Err,
    ensures
        applied_args(b, args) == applied_args(b, args.take(n)),
    decreases args.len() - n,
{
    if n == args.len() {
        assert(args.take(n) =~= args);
    } else {
        assert(args.take(n + 1).drop_last() =~= args.take(n));
        lemma_applied_args_prefix_error(b, args, n + 1);
    }
}

/// Whether two sequences of patterns are the same; see [`same_patterns`].
fn patterns_same(a: &Vec<Pattern>, b: &Vec<Pattern>) -> (r: bool)
    ensures
        r == same_patterns(a@, b@),
{
    if a.len() != b.len() {
        return false;
    }
    let mut k: usize = 0;
    while k < a.len()
        invariant
            k <= a.len(),
            a.len() == b.len(),
            forall|m: int| 0 <= m < k ==> #[trigger] pattern_eq(a@[m], b@[m]),
        decreases a.len() - k,
    {
        if !a[k].same(&b[k]) {
            return false;
        }
        k = k + 1;
    }
    true
}

/// The rows that the native answers give for the function at position `i` called with
/// `inputs`; see [`native_rows`].
fn find_native<'a>(natives: &'a Vec<NativeAnswer>, i: usize, inputs: &Vec<Pattern>) -> (r: Option<&'a Vec<Vec<Pattern>>>)
    ensures
        match r {
            Some(rows) => native_rows(natives@, i, inputs@, 0) == Some(rows@),
            None => native_rows(natives@, i, inputs@, 0) is None,
        },
{
    let mut j: usize = 0;
    while j < natives.len()
        invariant
            j <= natives.len(),
            native_rows(natives@, i, inputs@, 0) == native_rows(natives@, i, inputs@, j as int),
        decreases natives.len() - j,
    {
        if natives[j].index == i && patterns_same(&natives[j].inputs, inputs) {
            return Some(&natives[j].outputs);
        }
        j = j + 1;
    }
    None
}

/// The binding after unifying a row of values with the arguments; see [`unify_row`].
fn unify_row_exec(row: &Vec<Pattern>, args: &[Pattern], b: Binding) -> (r: Option<Binding>)
    requires
        b@.wf(),
    ensures
        match r {
            Some(b2) => unify_row(row@, args@, b@, 0) == Some(b2@) && b2@.wf(),
            None => unify_row(row@, args@, b@, 0) is None,
        },
{
    let mut current = b;
    let mut k: usize = 0;
    while k < row.len() && k < args.len()
        invariant
            k <= row.len(),
            current@.wf(),
            unify_row(row@, args@, b@, 0) == unify_row(row@, args@, current@, k as int),
        decreases row.len() - k,
    {
        match unify_patterns(row[k].copy(), args[k].copy(), current) {
            None => {
                return None;
            },
            Some(b2) => {
                current = b2;
            },
        }
        k = k + 1;
    }
    Some(current)
}

/// The bindings in which the rows unify with the arguments; see [`rows_answers`].
fn rows_answers_exec(rows: &Vec<Vec<Pattern>>, args: &[Pattern], b: &Binding) -> (r: Vec<Binding>)
    requires
        b@.wf(),
    ensures
        views(r@) == rows_answers(rows@, args@, b@),
        all_wf(views(r@)),
{
    let mut r: Vec<Binding> = Vec::new();
    let mut k: usize = 0;
    proof {
        assert(rows@.take(0) =~= Seq::<Vec<Pattern>>::empty());
        assert(views(r@) =~= Seq::<BindingView>::empty());
    }
    while k < rows.len()
        invariant
            k <= rows.len(),
            b@.wf(),
            views(r@) == rows_answers(rows@.take(k as int), args@, b@),
            all_wf(views(r@)),
        decreases rows.len() - k,
    {
        proof {
            assert(rows@.take(k + 1).drop_last() =~= rows@.take(k as int));
        }
        let ghost before = views(r@);
        match unify_row_exec(&rows[k], args, b.copy()) {
            Some(b2) => {
                r.push(b2);
                proof {
                    assert(views(r@) =~= before.push(b2@));
                }
            },
            None => {},
        }
        k = k + 1;
    }
    proof {
        assert(rows@.take(k as int) =~= rows@);
    }
    r
}

/// Once a prefix of `s` cannot be applied, neither can `s`, with the same error.
proof fn lemma_applied_prefix_error(p: Pattern, s: Seq<BindingView>, n: int)
    requires
        0 <= n <= s.len(),
        applied_all(p, s.take(n)) is Err,
    ensures
        applied_all(p, s) == applied_all(p, s.take(n)),
    decreases s.len() - n,
{
    if n == s.len() {
        assert(s.take(n) =~= s);
    } else {
        assert(s.take(n + 1).drop_last() =~= s.take(n));
        lemma_applied_prefix_error(p, s, n + 1);
    }
}

/// `p` under each binding of `bs`; see [`applied_all`].
fn applied_each(p: &Pattern, bs: &Vec<Binding>) -> (r: Result<Vec<Pattern>, BindingError>)
    requires
        all_wf(views(bs@)),
    ensures
        match r {
            Ok(items) => applied_all(*p, views(bs@)) == Result::<Seq<Pattern>, BindingError>::Ok(items@),
            Err(e) => applied_all(*p, views(bs@)) == Result::<Seq<Pattern>, BindingError>::Err(e),
        },
{
    let mut items: Vec<Pattern> = Vec::new();
    let mut k: usize = 0;
    proof {
        assert(views(bs@).take(0) =~= Seq::<BindingView>::empty());
    }
    while k < bs.len()
        invariant
            k <= bs.len(),
            all_wf(views(bs@)),
            applied_all(*p, views(bs@).take(k as int)) == Result::<Seq<Pattern>, BindingError>::Ok(items@),
        decreases bs.len() - k,
    {
        proof {
            assert(views(bs@).take(k + 1).drop_last() =~= views(bs@).take(k as int));
            assert(views(bs@)[k as int].wf());
        }
        match bs[k].apply(p) {
            Err(e) => {
                proof {
                    lemma_applied_prefix_error(*p, views(bs@), k + 1);
                }
                return Err(e);
            },
            Ok(q) => {
                items.push(q);
            },
        }
        k = k + 1;
    }
    proof {
        assert(views(bs@).take(k as int) =~= views(bs@));
    }
    Ok(items)
}


/// A fact whose head matches the arguments gives one answer: the binding in which its head
/// matched, with its generation ended.
pub proof fn lemma_fact_answers(db: Seq<(HandleView, EntryView<Clause>)>, natives: Seq<NativeAnswer>, c: Clause, args: Seq<Pattern>, b: BindingView, public: bool, n: nat, fuel: nat)
    requires
        c.body is None,
        n > 0,
        fuel > 1,
        b.next_generation < usize::MAX,
        start_generation_spec(b, c.variables@, args, c.head@) is Some,
    ensures
        definition_answers(db, natives, seq![c], args, b, public, n, fuel) == Answers::Ok(
            seq![ended(start_generation_spec(b, c.variables@, args, c.head@).unwrap())],
        ),
{
    let b1 = start_generation_spec(b, c.variables@, args, c.head@).unwrap();
    assert(seq![b1].map_values(|a: BindingView| ended(a)) =~= seq![ended(b1)]);
    if c.kind != RuleKind::Once && n > 1 {
        assert(clauses_answers(db, natives, seq![c], 1, args, b, public, (n - 1) as nat, (fuel - 1) as nat) == Answers::Ok(Seq::empty()));
        assert(seq![ended(b1)] + Seq::<BindingView>::empty() =~= seq![ended(b1)]);
    }
}

/// A clause whose head does not match the arguments adds nothing: the answers are those of
/// the clauses after it, with one step less.
pub proof fn lemma_unmatched_clause_is_skipped(db: Seq<(HandleView, EntryView<Clause>)>, natives: Seq<NativeAnswer>, clauses: Seq<Clause>, args: Seq<Pattern>, b: BindingView, public: bool, n: nat, fuel: nat)
    requires
        clauses.len() > 0,
        n > 0,
        fuel > 0,
        b.next_generation < usize::MAX,
        start_generation_spec(b, clauses[0].variables@, args, clauses[0].head@) is None,
    ensures
        definition_answers(db, natives, clauses, args, b, public, n, fuel) == clauses_answers(db, natives, clauses, 1, args, b, public, n, (fuel - 1) as nat),
{
}

/// The cut of a `Once` rule: once the head of its first clause matches, the clauses after
/// it are not tried, whatever they are.
pub proof fn lemma_once_rule_cuts(db: Seq<(HandleView, EntryView<Clause>)>, natives: Seq<NativeAnswer>, clauses: Seq<Clause>, args: Seq<Pattern>, b: BindingView, public: bool, n: nat, fuel: nat)
    requires
        clauses.len() > 0,
        clauses[0].kind == RuleKind::Once,
        start_generation_spec(b, clauses[0].variables@, args, clauses[0].head@) is Some,
    ensures
        definition_answers(db, natives, clauses, args, b, public, n, fuel) == definition_answers(db, natives, seq![clauses[0]], args, b, public, n, fuel),
{
    assert(seq![clauses[0]][0] == clauses[0]);
}

/// Answers come clause by clause, and a later clause is tried only for answers the earlier
/// ones did not give: when the first clause matches and gives at least `n` answers (a fact
/// gives one), the first `n` answers are its own, whatever the clauses after it are (even
/// ones whose answers never end).
pub proof fn lemma_later_clauses_wait(db: Seq<(HandleView, EntryView<Clause>)>, natives: Seq<NativeAnswer>, clauses: Seq<Clause>, args: Seq<Pattern>, b: BindingView, public: bool, n: nat, fuel: nat)
    requires
        clauses.len() > 0,
        n > 0,
        fuel > 0,
        start_generation_spec(b, clauses[0].variables@, args, clauses[0].head@) matches Some(b1) && match clauses[0].body {
            None => n == 1,
            Some(d) => disjunction_answers(db, natives, d.cases@, 0, b1, false, n, (fuel - 1) as nat) matches Ok(found) && found.len() >= n,
        },
    ensures
        definition_answers(db, natives, clauses, args, b, public, n, fuel) == definition_answers(db, natives, seq![clauses[0]], args, b, public, n, fuel),
{
    assert(seq![clauses[0]][0] == clauses[0]);
    let c = clauses[0];
    let b1 = start_generation_spec(b, c.variables@, args, c.head@).unwrap();
    let one = seq![c];
    assert(one[0] == c);
    assert(one.len() == 1);
    match c.body {
        None => {
            assert(seq![b1].map_values(|a: BindingView| ended(a)).len() == 1);
        },
        Some(d) => {
            let found = disjunction_answers(db, natives, d.cases@, 0, b1, false, n, (fuel - 1) as nat)->Ok_0;
            assert(found.map_values(|a: BindingView| ended(a)).len() == found.len());
        },
    }
}

/// A procession goes on with the first answer of each step but the last: with two steps
/// or more, the answers are those of the rest under the first answer of the first step,
/// whatever its later answers are (even when they never end).
pub proof fn lemma_procession_takes_first_answer(db: Seq<(HandleView, EntryView<Clause>)>, natives: Seq<NativeAnswer>, steps: Seq<Step>, b: BindingView, public: bool, n: nat, fuel: nat)
    requires
        steps.len() >= 2,
        n > 0,
        fuel > 0,
        step_answers(db, natives, steps[0], b, public, 1, (fuel - 1) as nat) matches Ok(found) && found.len() > 0,
    ensures
        procession_answers(db, natives, steps, 0, b, public, n, fuel) == procession_answers(
            db,
            natives,
            steps,
            1,
            (step_answers(db, natives, steps[0], b, public, 1, (fuel - 1) as nat)->Ok_0)[0],
            public,
            n,
            (fuel - 1) as nat,
        ),
{
}

/// The commitment of `->>`: once the head of a case with a tail has an answer, the answers
/// are those of the tail under the first of them, whatever the head's later answers and
/// the cases after it are.
pub proof fn lemma_tail_commits(db: Seq<(HandleView, EntryView<Clause>)>, natives: Seq<NativeAnswer>, cases: Seq<(Conjunction, Option<Conjunction>)>, b: BindingView, public: bool, n: nat, fuel: nat)
    requires
        cases.len() > 0,
        n > 0,
        fuel > 0,
        cases[0].1 is Some,
        conjunction_answers(db, natives, cases[0].0.terms@, 0, b, public, 1, (fuel - 1) as nat) matches Ok(found) && found.len() > 0,
    ensures
        disjunction_answers(db, natives, cases, 0, b, public, n, fuel) == conjunction_answers(
            db,
            natives,
            cases[0].1.unwrap().terms@,
            0,
            (conjunction_answers(db, natives, cases[0].0.terms@, 0, b, public, 1, (fuel - 1) as nat)->Ok_0)[0],
            public,
            n,
            (fuel - 1) as nat,
        ),
        disjunction_answers(db, natives, cases, 0, b, public, n, fuel) == disjunction_answers(db, natives, seq![cases[0]], 0, b, public, n, fuel),
{
    assert(seq![cases[0]][0] == cases[0]);
}

/// A case without a tail gives the answers of its head, then, when they are fewer than
/// asked for, those of the cases after it.
pub proof fn lemma_case_then_rest(db: Seq<(HandleView, EntryView<Clause>)>, natives: Seq<NativeAnswer>, cases: Seq<(Conjunction, Option<Conjunction>)>, b: BindingView, public: bool, n: nat, fuel: nat)
    requires
        cases.len() > 0,
        n > 0,
        fuel > 0,
        cases[0].1 is None,
        conjunction_answers(db, natives, cases[0].0.terms@, 0, b, public, n, (fuel - 1) as nat) matches Ok(found) && found.len() < n,
    ensures
        disjunction_answers(db, natives, cases, 0, b, public, n, fuel) == then_all(
            conjunction_answers(db, natives, cases[0].0.terms@, 0, b, public, n, (fuel - 1) as nat),
            disjunction_answers(
                db,
                natives,
                cases,
                1,
                b,
                public,
                (n - (conjunction_answers(db, natives, cases[0].0.terms@, 0, b, public, n, (fuel - 1) as nat)->Ok_0).len()) as nat,
                (fuel - 1) as nat,
            ),
        ),
{
}

/// Generations nest: ending the generation that entering a clause started (`ended`, what
/// [`Binding::end_generation`] gives) gives back the generations as they were, and the next clause entered afterwards gets a new generation
/// number, one above the one just ended; numbers are not reused.
pub proof fn lemma_generations_are_not_reused(
    b: BindingView,
    variables: Seq<Variable>,
    args: Seq<Pattern>,
    head: Seq<Pattern>,
    next_variables: Seq<Variable>,
    next_args: Seq<Pattern>,
    next_head: Seq<Pattern>,
)
    requires
        b.wf(),
        b.next_generation + 1 < usize::MAX,
        start_generation_spec(b, variables, args, head) is Some,
    ensures
        ({
            let c = start_generation_spec(b, variables, args, head).unwrap();
            &&& ended(c).generations == b.generations
            &&& ended(c).generation() == b.generation()
            &&& c.generation() == b.next_generation
            &&& start_generation_spec(ended(c), next_variables, next_args, next_head) matches Some(d)
                ==> d.generation() == c.generation() + 1
        }),
{
    let c = start_generation_spec(b, variables, args, head).unwrap();
    crate::unify_laws::lemma_start_generation(b, variables, args, head, vstd::pervasive::arbitrary());
    crate::unify_laws::lemma_start_generation(ended(c), next_variables, next_args, next_head, vstd::pervasive::arbitrary());
}


/// A query of a handle that names nothing has no answers.
pub proof fn lemma_unknown_query(db: Seq<(HandleView, EntryView<Clause>)>, natives: Seq<NativeAnswer>, h: HandleView, args: Seq<Pattern>, b: BindingView, public: bool, n: nat, fuel: nat)
    requires
        fuel > 0,
        lookup_entry(db, h, public, alias_depth(db.len())) == Result::<Option<DefinitionView<Clause>>, crate::resolution::ResolveErrorView>::Ok(None),
    ensures
        query_answers(db, natives, h, args, b, public, n, fuel) == Answers::Ok(Seq::empty()),
{
}

impl Database<Clause> {
    /// The first `n` answers of the clauses from the `i`-th on; see [`clauses_answers`].
    fn clauses_exec(&self, natives: &Vec<NativeAnswer>, clauses: &[Clause], i: usize, args: &[Pattern], b: &Binding, public: bool, n: usize, fuel: u64) -> (r: Result<Vec<Binding>, EvalError>)
        requires
            self.wf(),
            b@.wf(),
        ensures
            answered(r, clauses_answers(self@, natives@, clauses@, i as int, args@, b@, public, n as nat, fuel as nat)),
        decreases fuel,
    {
        if fuel == 0 {
            return Err(EvalError::Exhausted);
        }
        if n == 0 || i >= clauses.len() {
            return Ok(no_answers());
        }
        if b.next_generation() == usize::MAX {
            return Err(EvalError::Exhausted);
        }
        let f = fuel - 1;
        let c = &clauses[i];
        match b.start_generation(c.variables.as_slice(), args, c.head.as_slice()) {
            None => self.clauses_exec(natives, clauses, i + 1, args, b, public, n, f),
            Some(b1) => {
                let body = match &c.body {
                    None => Ok(one_answer(&b1)),
                    Some(d) => self.disjunction_exec(natives, d.cases.as_slice(), 0, &b1, false, n, f),
                };
                match body {
                    Err(e) => Err(e),
                    Ok(found) => {
                        let mine = ended_all(&found);
                        if c.kind == RuleKind::Once || mine.len() >= n {
                            Ok(mine)
                        } else {
                            let m = mine.len();
                            match self.clauses_exec(natives, clauses, i + 1, args, b, public, n - m, f) {
                                Err(e) => Err(e),
                                Ok(rest) => Ok(joined(mine, rest)),
                            }
                        }
                    },
                }
            },
        }
    }

    /// The first `n` answers of the cases from the `i`-th on; see [`disjunction_answers`].
    fn disjunction_exec(&self, natives: &Vec<NativeAnswer>, cases: &[(Conjunction, Option<Conjunction>)], i: usize, b: &Binding, public: bool, n: usize, fuel: u64) -> (r: Result<Vec<Binding>, EvalError>)
        requires
            self.wf(),
            b@.wf(),
        ensures
            answered(r, disjunction_answers(self@, natives@, cases@, i as int, b@, public, n as nat, fuel as nat)),
        decreases fuel,
    {
        if fuel == 0 {
            return Err(EvalError::Exhausted);
        }
        if n == 0 || i >= cases.len() {
            return Ok(no_answers());
        }
        let f = fuel - 1;
        let case = &cases[i];
        match &case.1 {
            None => match self.conjunction_exec(natives, case.0.terms.as_slice(), 0, b, public, n, f) {
                Err(e) => Err(e),
                Ok(found) => if found.len() >= n {
                    Ok(found)
                } else {
                    let m = found.len();
                    match self.disjunction_exec(natives, cases, i + 1, b, public, n - m, f) {
                        Err(e) => Err(e),
                        Ok(rest) => Ok(joined(found, rest)),
                    }
                },
            },
            Some(tail) => match self.conjunction_exec(natives, case.0.terms.as_slice(), 0, b, public, 1, f) {
                Err(e) => Err(e),
                Ok(found) => if found.len() == 0 {
                    self.disjunction_exec(natives, cases, i + 1, b, public, n, f)
                } else {
                    proof {
                        assert(views(found@)[0].wf());
                    }
                    self.conjunction_exec(natives, tail.terms.as_slice(), 0, &found[0], public, n, f)
                },
            },
        }
    }

    /// The first `n` answers of the processions from the `i`-th on; see
    /// [`conjunction_answers`].
    fn conjunction_exec(&self, natives: &Vec<NativeAnswer>, ps: &[Procession], i: usize, b: &Binding, public: bool, n: usize, fuel: u64) -> (r: Result<Vec<Binding>, EvalError>)
        requires
            self.wf(),
            b@.wf(),
        ensures
            answered(r, conjunction_answers(self@, natives@, ps@, i as int, b@, public, n as nat, fuel as nat)),
        decreases fuel,
    {
        if fuel == 0 {
            return Err(EvalError::Exhausted);
        }
        if n == 0 {
            return Ok(no_answers());
        }
        if i >= ps.len() {
            return Ok(one_answer(b));
        }
        self.conjunction_from_exec(natives, ps, i, b, 0, public, n, fuel - 1)
    }

    /// See [`conjunction_from`].
    fn conjunction_from_exec(&self, natives: &Vec<NativeAnswer>, ps: &[Procession], i: usize, b: &Binding, k: usize, public: bool, n: usize, fuel: u64) -> (r: Result<Vec<Binding>, EvalError>)
        requires
            self.wf(),
            b@.wf(),
        ensures
            answered(r, conjunction_from(self@, natives@, ps@, i as int, b@, k as nat, public, n as nat, fuel as nat)),
        decreases fuel,
    {
        if fuel == 0 {
            return Err(EvalError::Exhausted);
        }
        if n == 0 || i >= ps.len() || k == usize::MAX {
            return Ok(no_answers());
        }
        let f = fuel - 1;
        match self.procession_exec(natives, ps[i].steps.as_slice(), 0, b, public, k + 1, f) {
            Err(e) => Err(e),
            Ok(src) => if src.len() <= k {
                Ok(no_answers())
            } else {
                proof {
                    assert(views(src@)[k as int].wf());
                }
                match self.conjunction_exec(natives, ps, i + 1, &src[k], public, n, f) {
                    Err(e) => Err(e),
                    Ok(first) => if first.len() >= n {
                        Ok(first)
                    } else {
                        let m = first.len();
                        match self.conjunction_from_exec(natives, ps, i, b, k + 1, public, n - m, f) {
                            Err(e) => Err(e),
                            Ok(rest) => Ok(joined(first, rest)),
                        }
                    },
                }
            },
        }
    }

    /// The first `n` answers of the steps from the `i`-th on; see [`procession_answers`].
    fn procession_exec(&self, natives: &Vec<NativeAnswer>, steps: &[Step], i: usize, b: &Binding, public: bool, n: usize, fuel: u64) -> (r: Result<Vec<Binding>, EvalError>)
        requires
            self.wf(),
            b@.wf(),
        ensures
            answered(r, procession_answers(self@, natives@, steps@, i as int, b@, public, n as nat, fuel as nat)),
        decreases fuel,
    {
        if fuel == 0 {
            return Err(EvalError::Exhausted);
        }
        if n == 0 {
            return Ok(no_answers());
        }
        if i >= steps.len() {
            return Ok(one_answer(b));
        }
        let f = fuel - 1;
        if i + 1 >= steps.len() {
            return self.step_exec(natives, &steps[i], b, public, n, f);
        }
        match self.step_exec(natives, &steps[i], b, public, 1, f) {
            Err(e) => Err(e),
            Ok(found) => if found.len() == 0 {
                Ok(no_answers())
            } else {
                proof {
                    assert(views(found@)[0].wf());
                }
                self.procession_exec(natives, steps, i + 1, &found[0], public, n, f)
            },
        }
    }

    /// The first `n` answers of one step; see [`step_answers`].
    fn step_exec(&self, natives: &Vec<NativeAnswer>, step: &Step, b: &Binding, public: bool, n: usize, fuel: u64) -> (r: Result<Vec<Binding>, EvalError>)
        requires
            self.wf(),
            b@.wf(),
        ensures
            answered(r, step_answers(self@, natives@, *step, b@, public, n as nat, fuel as nat)),
        decreases fuel,
    {
        if fuel == 0 {
            return Err(EvalError::Exhausted);
        }
        if n == 0 {
            return Ok(no_answers());
        }
        let f = fuel - 1;
        match step {
            Step::Query(h, args) => self.query_from_exec(natives, h, args.as_slice(), b, 0, public, n, f),
            Step::Body(d) => self.disjunction_exec(natives, d.cases.as_slice(), 0, b, public, n, f),
            Step::Unification(lhs, rhs) => self.unification_from_exec(natives, lhs, rhs, b, 0, public, n, f),
        }
    }

    /// See [`unification_from`].
    fn unification_from_exec(&self, natives: &Vec<NativeAnswer>, lhs: &Term, rhs: &Term, b: &Binding, k: usize, public: bool, n: usize, fuel: u64) -> (r: Result<Vec<Binding>, EvalError>)
        requires
            self.wf(),
            b@.wf(),
        ensures
            answered(r, unification_from(self@, natives@, *lhs, *rhs, b@, k as nat, public, n as nat, fuel as nat)),
        decreases fuel,
    {
        if fuel == 0 {
            return Err(EvalError::Exhausted);
        }
        if n == 0 || k == usize::MAX {
            return Ok(no_answers());
        }
        let f = fuel - 1;
        match self.term_exec(natives, lhs, b, public, k + 1, f) {
            Err(e) => Err(e),
            Ok((lp, src)) => if src.len() <= k {
                Ok(no_answers())
            } else {
                proof {
                    assert(views(src@)[k as int].wf());
                }
                match self.unification_right_exec(natives, &lp, rhs, &src[k], 0, public, n, f) {
                    Err(e) => Err(e),
                    Ok(first) => if first.len() >= n {
                        Ok(first)
                    } else {
                        let m = first.len();
                        match self.unification_from_exec(natives, lhs, rhs, b, k + 1, public, n - m, f) {
                            Err(e) => Err(e),
                            Ok(rest) => Ok(joined(first, rest)),
                        }
                    },
                }
            },
        }
    }

    /// See [`unification_right`].
    fn unification_right_exec(&self, natives: &Vec<NativeAnswer>, lp: &Pattern, rhs: &Term, c: &Binding, k: usize, public: bool, n: usize, fuel: u64) -> (r: Result<Vec<Binding>, EvalError>)
        requires
            self.wf(),
            c@.wf(),
        ensures
            answered(r, unification_right(self@, natives@, *lp, *rhs, c@, k as nat, public, n as nat, fuel as nat)),
        decreases fuel,
    {
        if fuel == 0 {
            return Err(EvalError::Exhausted);
        }
        if n == 0 || k == usize::MAX {
            return Ok(no_answers());
        }
        let f = fuel - 1;
        match self.term_exec(natives, rhs, c, public, k + 1, f) {
            Err(e) => Err(e),
            Ok((rp, src)) => if src.len() <= k {
                Ok(no_answers())
            } else {
                proof {
                    assert(views(src@)[k as int].wf());
                }
                let first = match unify_patterns(lp.copy(), rp.copy(), src[k].copy()) {
                    Some(b2) => {
                        let mut v: Vec<Binding> = Vec::new();
                        v.push(b2);
                        proof {
                            assert(views(v@) =~= seq![b2@]);
                        }
                        v
                    },
                    None => no_answers(),
                };
                if first.len() >= n {
                    Ok(first)
                } else {
                    let m = first.len();
                    match self.unification_right_exec(natives, lp, rhs, c, k + 1, public, n - m, f) {
                        Err(e) => Err(e),
                        Ok(rest) => Ok(joined(first, rest)),
                    }
                }
            },
        }
    }

    /// The first `n` values of the terms from the `i`-th on; see [`terms_answers`].
    fn terms_exec(&self, natives: &Vec<NativeAnswer>, terms: &[Term], i: usize, acc: Vec<Pattern>, b: &Binding, public: bool, n: usize, fuel: u64) -> (r: Result<Vec<(Vec<Pattern>, Binding)>, EvalError>)
        requires
            self.wf(),
            b@.wf(),
        ensures
            answered_pairs(r, terms_answers(self@, natives@, terms@, i as int, acc@, b@, public, n as nat, fuel as nat)),
        decreases fuel,
    {
        if fuel == 0 {
            return Err(EvalError::Exhausted);
        }
        if n == 0 {
            let none: Vec<(Vec<Pattern>, Binding)> = Vec::new();
            proof {
                assert(pair_views(none@) =~= Seq::<(Seq<Pattern>, BindingView)>::empty());
            }
            return Ok(none);
        }
        if i >= terms.len() {
            let mut one: Vec<(Vec<Pattern>, Binding)> = Vec::new();
            let ghost acc0 = acc@;
            one.push((acc, b.copy()));
            proof {
                assert(pair_views(one@) =~= seq![(acc0, b@)]);
            }
            return Ok(one);
        }
        self.terms_from_exec(natives, terms, i, &acc, b, 0, public, n, fuel - 1)
    }

    /// See [`terms_from`].
    fn terms_from_exec(&self, natives: &Vec<NativeAnswer>, terms: &[Term], i: usize, acc: &Vec<Pattern>, b: &Binding, k: usize, public: bool, n: usize, fuel: u64) -> (r: Result<Vec<(Vec<Pattern>, Binding)>, EvalError>)
        requires
            self.wf(),
            b@.wf(),
        ensures
            answered_pairs(r, terms_from(self@, natives@, terms@, i as int, acc@, b@, k as nat, public, n as nat, fuel as nat)),
        decreases fuel,
    {
        if fuel == 0 {
            return Err(EvalError::Exhausted);
        }
        if n == 0 || i >= terms.len() || k == usize::MAX {
            let none: Vec<(Vec<Pattern>, Binding)> = Vec::new();
            proof {
                assert(pair_views(none@) =~= Seq::<(Seq<Pattern>, BindingView)>::empty());
            }
            return Ok(none);
        }
        let f = fuel - 1;
        match self.term_exec(natives, &terms[i], b, public, k + 1, f) {
            Err(e) => Err(e),
            Ok((p, src)) => if src.len() <= k {
                let none: Vec<(Vec<Pattern>, Binding)> = Vec::new();
                proof {
                    assert(pair_views(none@) =~= Seq::<(Seq<Pattern>, BindingView)>::empty());
                }
                Ok(none)
            } else {
                proof {
                    assert(views(src@)[k as int].wf());
                }
                let mut acc2 = copy_patterns(acc);
                acc2.push(p);
                match self.terms_exec(natives, terms, i + 1, acc2, &src[k], public, n, f) {
                    Err(e) => Err(e),
                    Ok(first) => if first.len() >= n {
                        Ok(first)
                    } else {
                        let m = first.len();
                        match self.terms_from_exec(natives, terms, i, acc, b, k + 1, public, n - m, f) {
                            Err(e) => Err(e),
                            Ok(rest) => Ok(joined_pairs(first, rest)),
                        }
                    },
                }
            },
        }
    }

    /// See [`query_from`].
    fn query_from_exec(&self, natives: &Vec<NativeAnswer>, h: &Handle, args: &[Term], b: &Binding, k: usize, public: bool, n: usize, fuel: u64) -> (r: Result<Vec<Binding>, EvalError>)
        requires
            self.wf(),
            b@.wf(),
        ensures
            answered(r, query_from(self@, natives@, h@, args@, b@, k as nat, public, n as nat, fuel as nat)),
        decreases fuel,
    {
        if fuel == 0 {
            return Err(EvalError::Exhausted);
        }
        if n == 0 || k == usize::MAX {
            return Ok(no_answers());
        }
        let f = fuel - 1;
        match self.terms_exec(natives, args, 0, Vec::new(), b, public, k + 1, f) {
            Err(e) => Err(e),
            Ok(pairs) => if pairs.len() <= k {
                Ok(no_answers())
            } else {
                proof {
                    assert(pairs@[k as int].1@.wf());
                }
                match self.query_exec(natives, h, pairs[k].0.as_slice(), &pairs[k].1, public, n, f) {
                    Err(e) => Err(e),
                    Ok(first) => if first.len() >= n {
                        Ok(first)
                    } else {
                        let m = first.len();
                        match self.query_from_exec(natives, h, args, b, k + 1, public, n - m, f) {
                            Err(e) => Err(e),
                            Ok(rest) => Ok(joined(first, rest)),
                        }
                    },
                }
            },
        }
    }

    /// The first `n` answers of the query of `h` with `args`; see [`query_answers`].
    fn query_exec(&self, natives: &Vec<NativeAnswer>, h: &Handle, args: &[Pattern], b: &Binding, public: bool, n: usize, fuel: u64) -> (r: Result<Vec<Binding>, EvalError>)
        requires
            self.wf(),
            b@.wf(),
        ensures
            answered(r, query_answers(self@, natives@, h@, args@, b@, public, n as nat, fuel as nat)),
        decreases fuel,
    {
        if fuel == 0 {
            return Err(EvalError::Exhausted);
        }
        if n == 0 {
            return Ok(no_answers());
        }
        let f = fuel - 1;
        match self.lookup(h, public) {
            Err(_) => Err(EvalError::Exhausted),
            Ok(None) => Ok(no_answers()),
            Ok(Some(d)) => match d {
                DatabaseDefinition::Static(clauses) => self.clauses_exec(natives, clauses.as_slice(), 0, args, b, public, n, f),
                DatabaseDefinition::Mutable(_) => Err(EvalError::Mutable),
                DatabaseDefinition::Alias(_) => Ok(no_answers()),
                DatabaseDefinition::Native(i) => match apply_args(b, args) {
                    Err(e) => Err(EvalError::Apply(e)),
                    Ok(inputs) => match find_native(natives, *i, &inputs) {
                        None => Err(EvalError::Native(*i, inputs)),
                        Some(rows) => Ok(limit_answers(rows_answers_exec(rows, args, b), n)),
                    },
                },
            },
        }
    }

    /// The value of a term and the first `n` bindings in which it holds; see
    /// [`term_answers`].
    fn term_exec(&self, natives: &Vec<NativeAnswer>, t: &Term, b: &Binding, public: bool, n: usize, fuel: u64) -> (r: Result<(Pattern, Vec<Binding>), EvalError>)
        requires
            self.wf(),
            b@.wf(),
        ensures
            answered_term(r, term_answers(self@, natives@, *t, b@, public, n as nat, fuel as nat)),
        decreases fuel,
    {
        if fuel == 0 {
            return Err(EvalError::Exhausted);
        }
        let f = fuel - 1;
        match t {
            Term::Value(p) => Ok((p.copy(), here_answers(b, n))),
            Term::InfixOp(lhs, op, rhs) => {
                let mut b1 = b.copy();
                let v = b1.fresh_variable();
                let dest = Pattern::from_kind(PatternKind::Variable(v));
                match self.infix_from_exec(natives, &**lhs, op, &**rhs, &dest, &b1, 0, public, n, f) {
                    Err(e) => Err(e),
                    Ok(a) => Ok((dest, a)),
                }
            },
            Term::ListAggregation(p, body) => match self.disjunction_exec(natives, body.cases.as_slice(), 0, b, public, usize::MAX, f) {
                Err(e) => Err(e),
                Ok(found) => match applied_each(p, &found) {
                    Err(e) => Err(EvalError::Apply(e)),
                    Ok(items) => {
                        let list = PatternList::from_vec(items);
                        proof {
                            lemma_list_roundtrip(list);
                        }
                        Ok((Pattern::list(list, None), here_answers(b, n)))
                    },
                },
            },
        }
    }

    /// See [`infix_from`].
    fn infix_from_exec(&self, natives: &Vec<NativeAnswer>, lhs: &Term, op: &Handle, rhs: &Term, dest: &Pattern, b: &Binding, k: usize, public: bool, n: usize, fuel: u64) -> (r: Result<Vec<Binding>, EvalError>)
        requires
            self.wf(),
            b@.wf(),
        ensures
            answered(r, infix_from(self@, natives@, *lhs, op@, *rhs, *dest, b@, k as nat, public, n as nat, fuel as nat)),
        decreases fuel,
    {
        if fuel == 0 {
            return Err(EvalError::Exhausted);
        }
        if n == 0 || k == usize::MAX {
            return Ok(no_answers());
        }
        let f = fuel - 1;
        match self.term_exec(natives, lhs, b, public, k + 1, f) {
            Err(e) => Err(e),
            Ok((lp, src)) => if src.len() <= k {
                Ok(no_answers())
            } else {
                proof {
                    assert(views(src@)[k as int].wf());
                }
                match self.infix_right_exec(natives, &lp, op, rhs, dest, &src[k], 0, public, n, f) {
                    Err(e) => Err(e),
                    Ok(first) => if first.len() >= n {
                        Ok(first)
                    } else {
                        let m = first.len();
                        match self.infix_from_exec(natives, lhs, op, rhs, dest, b, k + 1, public, n - m, f) {
                            Err(e) => Err(e),
                            Ok(rest) => Ok(joined(first, rest)),
                        }
                    },
                }
            },
        }
    }

    /// See [`infix_right`].
    fn infix_right_exec(&self, natives: &Vec<NativeAnswer>, lp: &Pattern, op: &Handle, rhs: &Term, dest: &Pattern, c: &Binding, k: usize, public: bool, n: usize, fuel: u64) -> (r: Result<Vec<Binding>, EvalError>)
        requires
            self.wf(),
            c@.wf(),
        ensures
            answered(r, infix_right(self@, natives@, *lp, op@, *rhs, *dest, c@, k as nat, public, n as nat, fuel as nat)),
        decreases fuel,
    {
        if fuel == 0 {
            return Err(EvalError::Exhausted);
        }
        if n == 0 || k == usize::MAX {
            return Ok(no_answers());
        }
        let f = fuel - 1;
        match self.term_exec(natives, rhs, c, public, k + 1, f) {
            Err(e) => Err(e),
            Ok((rp, src)) => if src.len() <= k {
                Ok(no_answers())
            } else {
                proof {
                    assert(views(src@)[k as int].wf());
                }
                let mut args: Vec<Pattern> = Vec::new();
                args.push(lp.copy());
                args.push(rp);
                args.push(dest.copy());
                proof {
                    assert(args@ =~= seq![*lp, rp, *dest]);
                }
                match self.query_exec(natives, op, args.as_slice(), &src[k], public, n, f) {
                    Err(e) => Err(e),
                    Ok(first) => if first.len() >= n {
                        Ok(first)
                    } else {
                        let m = first.len();
                        match self.infix_right_exec(natives, lp, op, rhs, dest, c, k + 1, public, n - m, f) {
                            Err(e) => Err(e),
                            Ok(rest) => Ok(joined(first, rest)),
                        }
                    },
                }
            },
        }
    }

    /// The first `limit` answers of a definition, given as its clauses, to a query with the
    /// arguments `args` under `binding`, in at most `fuel` steps; see [`definition_answers`].
    /// A later answer is looked for only when the earlier ones are fewer than `limit`.
    pub fn unify_definition(&self, natives: &Vec<NativeAnswer>, clauses: &[Clause], args: &[Pattern], binding: &Binding, public: bool, limit: usize, fuel: u64) -> (r: Result<Vec<Binding>, EvalError>)
        requires
            self.wf(),
            binding@.wf(),
        ensures
            answered(r, definition_answers(self@, natives@, clauses@, args@, binding@, public, limit as nat, fuel as nat)),
    {
        self.clauses_exec(natives, clauses, 0, args, binding, public, limit, fuel)
    }

    /// The first `limit` answers of a body under `binding`, in at most `fuel` steps; see
    /// [`body_answers`]. With `public`, only the public predicates may be queried.
    pub fn unify_body(&self, natives: &Vec<NativeAnswer>, body: &Disjunction, binding: &Binding, public: bool, limit: usize, fuel: u64) -> (r: Result<Vec<Binding>, EvalError>)
        requires
            self.wf(),
            binding@.wf(),
        ensures
            answered(r, body_answers(self@, natives@, *body, binding@, public, limit as nat, fuel as nat)),
    {
        self.disjunction_exec(natives, body.cases.as_slice(), 0, binding, public, limit, fuel)
    }

    /// The value of a term under `binding` and the first `limit` bindings in which it holds,
    /// in at most `fuel` steps; see [`term_answers`].
    pub fn evaluate_term(&self, natives: &Vec<NativeAnswer>, term: &Term, binding: &Binding, public: bool, limit: usize, fuel: u64) -> (r: Result<(Pattern, Vec<Binding>), EvalError>)
        requires
            self.wf(),
            binding@.wf(),
        ensures
            answered_term(r, term_answers(self@, natives@, *term, binding@, public, limit as nat, fuel as nat)),
    {
        self.term_exec(natives, term, binding, public, limit, fuel)
    }
}

} // verus!
