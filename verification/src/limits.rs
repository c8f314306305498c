//! Asking for fewer answers: every evaluation that asks for the first `n` answers gives,
//! when it succeeds, a prefix of what it gives for a greater `n`. The first answers never
//! depend on computing later ones.
use crate::binding::BindingView;
use crate::database::{DefinitionView, EntryView, lookup_entry, alias_depth};
use crate::evaluate::{
    Answers, EvalErrorView, Clause, NativeAnswer, Procession, Step, Term, Conjunction, RuleKind,
    limited, then_all, ended, clauses_answers, disjunction_answers, conjunction_answers,
    conjunction_from, procession_answers, step_answers, unification_from, unification_right,
    terms_answers, terms_from, query_from, query_answers, term_answers, infix_from, infix_right,
    definition_answers, body_answers, Disjunction,
};
use crate::handle::HandleView;
use crate::pattern::Pattern;
use vstd::prelude::*;

verus! {

/// Whether `r1` is what asking for the first `n1` answers gives when asking for more gives
/// `r2`: when `r2` holds answers, `r1` holds the first `n1` of them.
pub open spec fn answers_prefix(r1: Answers, r2: Answers, n1: nat) -> bool {
    r2 is Ok ==> r1 == Answers::Ok(limited(r2->Ok_0, n1))
}

/// [`answers_prefix`] for the values of terms, each with the binding it holds in.
pub open spec fn pairs_prefix(
    r1: Result<Seq<(Seq<Pattern>, BindingView)>, EvalErrorView>,
    r2: Result<Seq<(Seq<Pattern>, BindingView)>, EvalErrorView>,
    n1: nat,
) -> bool {
    r2 is Ok ==> r1 == Result::<Seq<(Seq<Pattern>, BindingView)>, EvalErrorView>::Ok(limited(r2->Ok_0, n1))
}

/// [`answers_prefix`] for the value of a term: the same value, in the first `n1` bindings.
pub open spec fn term_prefix(
    r1: Result<(Pattern, Seq<BindingView>), EvalErrorView>,
    r2: Result<(Pattern, Seq<BindingView>), EvalErrorView>,
    n1: nat,
) -> bool {
    r2 is Ok ==> r1 == Result::<(Pattern, Seq<BindingView>), EvalErrorView>::Ok((r2->Ok_0.0, limited(r2->Ok_0.1, n1)))
}

proof fn lemma_limited_facts<A>(s: Seq<A>, n: nat)
    ensures
        limited(s, n).len() <= n,
        limited(s, n).len() < n ==> limited(s, n) == s,
        n == 0 ==> limited(s, n) == Seq::<A>::empty(),
        s.len() <= n ==> limited(s, n) == s,
{
    if n == 0 {
        assert(limited(s, n) =~= Seq::<A>::empty());
    }
}

proof fn lemma_limited_twice<A>(s: Seq<A>, n1: nat, n2: nat)
    requires
        n1 <= n2,
    ensures
        limited(limited(s, n2), n1) == limited(s, n1),
{
    assert(limited(limited(s, n2), n1) =~= limited(s, n1));
}

/// The step shared by every evaluation that collects answers: the first ones, then, when
/// there are fewer than asked for, the rest.
proof fn lemma_then_prefix(first1: Seq<BindingView>, first2: Seq<BindingView>, n1: nat, n2: nat, rest1: Answers, rest2: Answers)
    requires
        n1 <= n2,
        first1 == limited(first2, n1),
        first1.len() < n1 && first2.len() < n2 ==> answers_prefix(rest1, rest2, (n1 - first1.len()) as nat),
    ensures
        answers_prefix(
            if first1.len() >= n1 { Answers::Ok(first1) } else { then_all(Answers::Ok(first1), rest1) },
            if first2.len() >= n2 { Answers::Ok(first2) } else { then_all(Answers::Ok(first2), rest2) },
            n1,
        ),
{
    lemma_limited_facts(first2, n1);
    if first2.len() >= n2 {
        assert(first1.len() == n1 || first1 == first2);
    } else if rest2 is Ok {
        let r2 = rest2->Ok_0;
        lemma_limited_facts(first2 + r2, n1);
        if first1.len() >= n1 {
            assert(limited(first2 + r2, n1) =~= first1);
        } else {
            let r1 = rest1->Ok_0;
            assert(first1 == first2);
            assert(first1 + limited(r2, (n1 - first1.len()) as nat) =~= limited(first2 + r2, n1));
        }
    }
}

/// [`lemma_then_prefix`] for the values of terms.
proof fn lemma_then_pairs_prefix(
    first1: Seq<(Seq<Pattern>, BindingView)>,
    first2: Seq<(Seq<Pattern>, BindingView)>,
    n1: nat,
    n2: nat,
    rest1: Result<Seq<(Seq<Pattern>, BindingView)>, EvalErrorView>,
    rest2: Result<Seq<(Seq<Pattern>, BindingView)>, EvalErrorView>,
)
    requires
        n1 <= n2,
        first1 == limited(first2, n1),
        first1.len() < n1 && first2.len() < n2 ==> pairs_prefix(rest1, rest2, (n1 - first1.len()) as nat),
    ensures
        pairs_prefix(
            if first1.len() >= n1 {
                Result::<Seq<(Seq<Pattern>, BindingView)>, EvalErrorView>::Ok(first1)
            } else {
                match rest1 {
                    Err(e) => Err(e),
                    Ok(rest) => Ok(first1 + rest),
                }
            },
            if first2.len() >= n2 {
                Result::<Seq<(Seq<Pattern>, BindingView)>, EvalErrorView>::Ok(first2)
            } else {
                match rest2 {
                    Err(e) => Err(e),
                    Ok(rest) => Ok(first2 + rest),
                }
            },
            n1,
        ),
{
    lemma_limited_facts(first2, n1);
    if first2.len() >= n2 {
        assert(first1.len() == n1 || first1 == first2);
    } else if rest2 is Ok {
        let r2 = rest2->Ok_0;
        lemma_limited_facts(first2 + r2, n1);
        if first1.len() >= n1 {
            assert(limited(first2 + r2, n1) =~= first1);
        } else {
            assert(first1 == first2);
            assert(first1 + limited(r2, (n1 - first1.len()) as nat) =~= limited(first2 + r2, n1));
        }
    }
}


/// Asking the clauses of a definition for fewer answers gives the first of the answers
/// that a greater ask gives.
pub proof fn lemma_clauses_prefix(db: Seq<(HandleView, EntryView<Clause>)>, natives: Seq<NativeAnswer>, clauses: Seq<Clause>, i: int, args: Seq<Pattern>, b: BindingView, public: bool, n1: nat, n2: nat, fuel: nat)
    requires
        n1 <= n2,
    ensures
        answers_prefix(
            clauses_answers(db, natives, clauses, i, args, b, public, n1, fuel),
            clauses_answers(db, natives, clauses, i, args, b, public, n2, fuel),
            n1,
        ),
    decreases fuel,
{
    let r2 = clauses_answers(db, natives, clauses, i, args, b, public, n2, fuel);
    if r2 is Ok {
        lemma_limited_facts(r2->Ok_0, n1);
    }
    if fuel > 0 && n1 > 0 && 0 <= i < clauses.len() && b.next_generation < usize::MAX {
        let f = (fuel - 1) as nat;
        let c = clauses[i];
        match crate::unify::start_generation_spec(b, c.variables@, args, c.head@) {
            None => lemma_clauses_prefix(db, natives, clauses, i + 1, args, b, public, n1, n2, f),
            Some(b1) => {
                let body1 = match c.body {
                    None => Answers::Ok(seq![b1]),
                    Some(d) => disjunction_answers(db, natives, d.cases@, 0, b1, false, n1, f),
                };
                let body2 = match c.body {
                    None => Answers::Ok(seq![b1]),
                    Some(d) => disjunction_answers(db, natives, d.cases@, 0, b1, false, n2, f),
                };
                match c.body {
                    None => lemma_limited_facts(seq![b1], n1),
                    Some(d) => lemma_disjunction_prefix(db, natives, d.cases@, 0, b1, false, n1, n2, f),
                }
                if body2 is Ok {
                    let found2 = body2->Ok_0;
                    let found1 = body1->Ok_0;
                    assert(found1 == limited(found2, n1));
                    let mine1 = found1.map_values(|a: BindingView| ended(a));
                    let mine2 = found2.map_values(|a: BindingView| ended(a));
                    assert(mine1 =~= limited(mine2, n1));
                    lemma_limited_facts(mine2, n1);
                    if c.kind != RuleKind::Once {
                        let m1 = (n1 - mine1.len()) as nat;
                        let m2 = (n2 - mine2.len()) as nat;
                        if mine1.len() < n1 && mine2.len() < n2 {
                            lemma_clauses_prefix(db, natives, clauses, i + 1, args, b, public, m1, m2, f);
                        }
                        lemma_then_prefix(mine1, mine2, n1, n2,
                            clauses_answers(db, natives, clauses, i + 1, args, b, public, m1, f),
                            clauses_answers(db, natives, clauses, i + 1, args, b, public, m2, f));
                    }
                }
            },
        }
    }
}

/// [`lemma_clauses_prefix`] for the cases of a disjunction.
pub proof fn lemma_disjunction_prefix(db: Seq<(HandleView, EntryView<Clause>)>, natives: Seq<NativeAnswer>, cases: Seq<(Conjunction, Option<Conjunction>)>, i: int, b: BindingView, public: bool, n1: nat, n2: nat, fuel: nat)
    requires
        n1 <= n2,
    ensures
        answers_prefix(
            disjunction_answers(db, natives, cases, i, b, public, n1, fuel),
            disjunction_answers(db, natives, cases, i, b, public, n2, fuel),
            n1,
        ),
    decreases fuel,
{
    let r2 = disjunction_answers(db, natives, cases, i, b, public, n2, fuel);
    if r2 is Ok {
        lemma_limited_facts(r2->Ok_0, n1);
    }
    if fuel > 0 && n1 > 0 && 0 <= i < cases.len() {
        let f = (fuel - 1) as nat;
        match cases[i].1 {
            None => {
                lemma_conjunction_prefix(db, natives, cases[i].0.terms@, 0, b, public, n1, n2, f);
                let c2 = conjunction_answers(db, natives, cases[i].0.terms@, 0, b, public, n2, f);
                if c2 is Ok {
                    let found2 = c2->Ok_0;
                    let found1 = limited(found2, n1);
                    lemma_limited_facts(found2, n1);
                    let m1 = (n1 - found1.len()) as nat;
                    let m2 = (n2 - found2.len()) as nat;
                    if found1.len() < n1 && found2.len() < n2 {
                        lemma_disjunction_prefix(db, natives, cases, i + 1, b, public, m1, m2, f);
                    }
                    lemma_then_prefix(found1, found2, n1, n2,
                        disjunction_answers(db, natives, cases, i + 1, b, public, m1, f),
                        disjunction_answers(db, natives, cases, i + 1, b, public, m2, f));
                }
            },
            Some(tail) => {
                let h = conjunction_answers(db, natives, cases[i].0.terms@, 0, b, public, 1, f);
                if h is Ok {
                    if h->Ok_0.len() == 0 {
                        lemma_disjunction_prefix(db, natives, cases, i + 1, b, public, n1, n2, f);
                    } else {
                        lemma_conjunction_prefix(db, natives, tail.terms@, 0, h->Ok_0[0], public, n1, n2, f);
                    }
                }
            },
        }
    }
}

/// [`lemma_clauses_prefix`] for the processions of a conjunction.
pub proof fn lemma_conjunction_prefix(db: Seq<(HandleView, EntryView<Clause>)>, natives: Seq<NativeAnswer>, ps: Seq<Procession>, i: int, b: BindingView, public: bool, n1: nat, n2: nat, fuel: nat)
    requires
        n1 <= n2,
    ensures
        answers_prefix(
            conjunction_answers(db, natives, ps, i, b, public, n1, fuel),
            conjunction_answers(db, natives, ps, i, b, public, n2, fuel),
            n1,
        ),
    decreases fuel,
{
    let r2 = conjunction_answers(db, natives, ps, i, b, public, n2, fuel);
    if r2 is Ok {
        lemma_limited_facts(r2->Ok_0, n1);
    }
    if fuel > 0 && n1 > 0 && 0 <= i < ps.len() {
        lemma_conjunction_from_prefix(db, natives, ps, i, b, 0, public, n1, n2, (fuel - 1) as nat);
    }
}

/// [`lemma_clauses_prefix`] for the answers under the `k`-th answer of a procession on.
pub proof fn lemma_conjunction_from_prefix(db: Seq<(HandleView, EntryView<Clause>)>, natives: Seq<NativeAnswer>, ps: Seq<Procession>, i: int, b: BindingView, k: nat, public: bool, n1: nat, n2: nat, fuel: nat)
    requires
        n1 <= n2,
    ensures
        answers_prefix(
            conjunction_from(db, natives, ps, i, b, k, public, n1, fuel),
            conjunction_from(db, natives, ps, i, b, k, public, n2, fuel),
            n1,
        ),
    decreases fuel,
{
    let r2 = conjunction_from(db, natives, ps, i, b, k, public, n2, fuel);
    if r2 is Ok {
        lemma_limited_facts(r2->Ok_0, n1);
    }
    if fuel > 0 && n1 > 0 && 0 <= i < ps.len() && k < usize::MAX {
        let f = (fuel - 1) as nat;
        let src = procession_answers(db, natives, ps[i].steps@, 0, b, public, k + 1, f);
        if src is Ok && src->Ok_0.len() > k {
            let next = src->Ok_0[k as int];
            lemma_conjunction_prefix(db, natives, ps, i + 1, next, public, n1, n2, f);
            let c2 = conjunction_answers(db, natives, ps, i + 1, next, public, n2, f);
            if c2 is Ok {
                let first2 = c2->Ok_0;
                let first1 = limited(first2, n1);
                lemma_limited_facts(first2, n1);
                let m1 = (n1 - first1.len()) as nat;
                let m2 = (n2 - first2.len()) as nat;
                if first1.len() < n1 && first2.len() < n2 {
                    lemma_conjunction_from_prefix(db, natives, ps, i, b, k + 1, public, m1, m2, f);
                }
                lemma_then_prefix(first1, first2, n1, n2,
                    conjunction_from(db, natives, ps, i, b, k + 1, public, m1, f),
                    conjunction_from(db, natives, ps, i, b, k + 1, public, m2, f));
            }
        }
    }
}

/// [`lemma_clauses_prefix`] for the steps of a procession.
pub proof fn lemma_procession_prefix(db: Seq<(HandleView, EntryView<Clause>)>, natives: Seq<NativeAnswer>, steps: Seq<Step>, i: int, b: BindingView, public: bool, n1: nat, n2: nat, fuel: nat)
    requires
        n1 <= n2,
    ensures
        answers_prefix(
            procession_answers(db, natives, steps, i, b, public, n1, fuel),
            procession_answers(db, natives, steps, i, b, public, n2, fuel),
            n1,
        ),
    decreases fuel,
{
    let r2 = procession_answers(db, natives, steps, i, b, public, n2, fuel);
    if r2 is Ok {
        lemma_limited_facts(r2->Ok_0, n1);
    }
    if fuel > 0 && n1 > 0 && 0 <= i < steps.len() {
        let f = (fuel - 1) as nat;
        if i + 1 >= steps.len() {
            lemma_step_prefix(db, natives, steps[i], b, public, n1, n2, f);
        } else {
            let h = step_answers(db, natives, steps[i], b, public, 1, f);
            if h is Ok && h->Ok_0.len() > 0 {
                lemma_procession_prefix(db, natives, steps, i + 1, h->Ok_0[0], public, n1, n2, f);
            }
        }
    }
}

/// [`lemma_clauses_prefix`] for one step.
pub proof fn lemma_step_prefix(db: Seq<(HandleView, EntryView<Clause>)>, natives: Seq<NativeAnswer>, step: Step, b: BindingView, public: bool, n1: nat, n2: nat, fuel: nat)
    requires
        n1 <= n2,
    ensures
        answers_prefix(
            step_answers(db, natives, step, b, public, n1, fuel),
            step_answers(db, natives, step, b, public, n2, fuel),
            n1,
        ),
    decreases fuel,
{
    let r2 = step_answers(db, natives, step, b, public, n2, fuel);
    if r2 is Ok {
        lemma_limited_facts(r2->Ok_0, n1);
    }
    if fuel > 0 && n1 > 0 {
        let f = (fuel - 1) as nat;
        match step {
            Step::Query(h, args) => lemma_query_from_prefix(db, natives, h@, args@, b, 0, public, n1, n2, f),
            Step::Body(d) => lemma_disjunction_prefix(db, natives, d.cases@, 0, b, public, n1, n2, f),
            Step::Unification(lhs, rhs) => lemma_unification_from_prefix(db, natives, lhs, rhs, b, 0, public, n1, n2, f),
        }
    }
}

/// [`lemma_clauses_prefix`] for a unification, under the `k`-th binding of its left side on.
pub proof fn lemma_unification_from_prefix(db: Seq<(HandleView, EntryView<Clause>)>, natives: Seq<NativeAnswer>, lhs: Term, rhs: Term, b: BindingView, k: nat, public: bool, n1: nat, n2: nat, fuel: nat)
    requires
        n1 <= n2,
    ensures
        answers_prefix(
            unification_from(db, natives, lhs, rhs, b, k, public, n1, fuel),
            unification_from(db, natives, lhs, rhs, b, k, public, n2, fuel),
            n1,
        ),
    decreases fuel,
{
    let r2 = unification_from(db, natives, lhs, rhs, b, k, public, n2, fuel);
    if r2 is Ok {
        lemma_limited_facts(r2->Ok_0, n1);
    }
    if fuel > 0 && n1 > 0 && k < usize::MAX {
        let f = (fuel - 1) as nat;
        let t = term_answers(db, natives, lhs, b, public, k + 1, f);
        if t is Ok && t->Ok_0.1.len() > k {
            let lp = t->Ok_0.0;
            let next = t->Ok_0.1[k as int];
            lemma_unification_right_prefix(db, natives, lp, rhs, next, 0, public, n1, n2, f);
            let c2 = unification_right(db, natives, lp, rhs, next, 0, public, n2, f);
            if c2 is Ok {
                let first2 = c2->Ok_0;
                let first1 = limited(first2, n1);
                lemma_limited_facts(first2, n1);
                let m1 = (n1 - first1.len()) as nat;
                let m2 = (n2 - first2.len()) as nat;
                if first1.len() < n1 && first2.len() < n2 {
                    lemma_unification_from_prefix(db, natives, lhs, rhs, b, k + 1, public, m1, m2, f);
                }
                lemma_then_prefix(first1, first2, n1, n2,
                    unification_from(db, natives, lhs, rhs, b, k + 1, public, m1, f),
                    unification_from(db, natives, lhs, rhs, b, k + 1, public, m2, f));
            }
        }
    }
}

/// [`lemma_clauses_prefix`] for a unification with the value of its left side, under the
/// `k`-th binding of its right side on.
pub proof fn lemma_unification_right_prefix(db: Seq<(HandleView, EntryView<Clause>)>, natives: Seq<NativeAnswer>, lp: Pattern, rhs: Term, c: BindingView, k: nat, public: bool, n1: nat, n2: nat, fuel: nat)
    requires
        n1 <= n2,
    ensures
        answers_prefix(
            unification_right(db, natives, lp, rhs, c, k, public, n1, fuel),
            unification_right(db, natives, lp, rhs, c, k, public, n2, fuel),
            n1,
        ),
    decreases fuel,
{
    let r2 = unification_right(db, natives, lp, rhs, c, k, public, n2, fuel);
    if r2 is Ok {
        lemma_limited_facts(r2->Ok_0, n1);
    }
    if fuel > 0 && n1 > 0 && k < usize::MAX {
        let f = (fuel - 1) as nat;
        let t = term_answers(db, natives, rhs, c, public, k + 1, f);
        if t is Ok && t->Ok_0.1.len() > k {
            let rp = t->Ok_0.0;
            let next = t->Ok_0.1[k as int];
            let first: Seq<BindingView> = match crate::unify::unify_patterns_spec(lp, rp, next, crate::unify::UNIFY_FUEL as nat) {
                Some(b2) => seq![b2],
                None => Seq::empty(),
            };
            lemma_limited_facts(first, n1);
            let m1 = (n1 - first.len()) as nat;
            let m2 = (n2 - first.len()) as nat;
            if first.len() < n1 && first.len() < n2 {
                lemma_unification_right_prefix(db, natives, lp, rhs, c, k + 1, public, m1, m2, f);
            }
            lemma_then_prefix(first, first, n1, n2,
                unification_right(db, natives, lp, rhs, c, k + 1, public, m1, f),
                unification_right(db, natives, lp, rhs, c, k + 1, public, m2, f));
        }
    }
}

/// [`lemma_clauses_prefix`] for the values of terms.
pub proof fn lemma_terms_prefix(db: Seq<(HandleView, EntryView<Clause>)>, natives: Seq<NativeAnswer>, terms: Seq<Term>, i: int, acc: Seq<Pattern>, b: BindingView, public: bool, n1: nat, n2: nat, fuel: nat)
    requires
        n1 <= n2,
    ensures
        pairs_prefix(
            terms_answers(db, natives, terms, i, acc, b, public, n1, fuel),
            terms_answers(db, natives, terms, i, acc, b, public, n2, fuel),
            n1,
        ),
    decreases fuel,
{
    let r2 = terms_answers(db, natives, terms, i, acc, b, public, n2, fuel);
    if r2 is Ok {
        lemma_limited_facts(r2->Ok_0, n1);
    }
    if fuel > 0 && n1 > 0 && 0 <= i < terms.len() {
        lemma_terms_from_prefix(db, natives, terms, i, acc, b, 0, public, n1, n2, (fuel - 1) as nat);
    }
}

/// [`lemma_clauses_prefix`] for the values of terms, under the `k`-th binding of the first
/// on.
pub proof fn lemma_terms_from_prefix(db: Seq<(HandleView, EntryView<Clause>)>, natives: Seq<NativeAnswer>, terms: Seq<Term>, i: int, acc: Seq<Pattern>, b: BindingView, k: nat, public: bool, n1: nat, n2: nat, fuel: nat)
    requires
        n1 <= n2,
    ensures
        pairs_prefix(
            terms_from(db, natives, terms, i, acc, b, k, public, n1, fuel),
            terms_from(db, natives, terms, i, acc, b, k, public, n2, fuel),
            n1,
        ),
    decreases fuel,
{
    let r2 = terms_from(db, natives, terms, i, acc, b, k, public, n2, fuel);
    if r2 is Ok {
        lemma_limited_facts(r2->Ok_0, n1);
    }
    if fuel > 0 && n1 > 0 && 0 <= i < terms.len() && k < usize::MAX {
        let f = (fuel - 1) as nat;
        let t = term_answers(db, natives, terms[i], b, public, k + 1, f);
        if t is Ok && t->Ok_0.1.len() > k {
            let p = t->Ok_0.0;
            let next = t->Ok_0.1[k as int];
            lemma_terms_prefix(db, natives, terms, i + 1, acc.push(p), next, public, n1, n2, f);
            let c2 = terms_answers(db, natives, terms, i + 1, acc.push(p), next, public, n2, f);
            if c2 is Ok {
                let first2 = c2->Ok_0;
                let first1 = limited(first2, n1);
                lemma_limited_facts(first2, n1);
                let m1 = (n1 - first1.len()) as nat;
                let m2 = (n2 - first2.len()) as nat;
                if first1.len() < n1 && first2.len() < n2 {
                    lemma_terms_from_prefix(db, natives, terms, i, acc, b, k + 1, public, m1, m2, f);
                }
                lemma_then_pairs_prefix(first1, first2, n1, n2,
                    terms_from(db, natives, terms, i, acc, b, k + 1, public, m1, f),
                    terms_from(db, natives, terms, i, acc, b, k + 1, public, m2, f));
            }
        }
    }
}

/// [`lemma_clauses_prefix`] for a query, under the `k`-th values of its arguments on.
pub proof fn lemma_query_from_prefix(db: Seq<(HandleView, EntryView<Clause>)>, natives: Seq<NativeAnswer>, h: HandleView, args: Seq<Term>, b: BindingView, k: nat, public: bool, n1: nat, n2: nat, fuel: nat)
    requires
        n1 <= n2,
    ensures
        answers_prefix(
            query_from(db, natives, h, args, b, k, public, n1, fuel),
            query_from(db, natives, h, args, b, k, public, n2, fuel),
            n1,
        ),
    decreases fuel,
{
    let r2 = query_from(db, natives, h, args, b, k, public, n2, fuel);
    if r2 is Ok {
        lemma_limited_facts(r2->Ok_0, n1);
    }
    if fuel > 0 && n1 > 0 && k < usize::MAX {
        let f = (fuel - 1) as nat;
        let pairs = terms_answers(db, natives, args, 0, Seq::empty(), b, public, k + 1, f);
        if pairs is Ok && pairs->Ok_0.len() > k {
            let pk = pairs->Ok_0[k as int];
            lemma_query_prefix(db, natives, h, pk.0, pk.1, public, n1, n2, f);
            let c2 = query_answers(db, natives, h, pk.0, pk.1, public, n2, f);
            if c2 is Ok {
                let first2 = c2->Ok_0;
                let first1 = limited(first2, n1);
                lemma_limited_facts(first2, n1);
                let m1 = (n1 - first1.len()) as nat;
                let m2 = (n2 - first2.len()) as nat;
                if first1.len() < n1 && first2.len() < n2 {
                    lemma_query_from_prefix(db, natives, h, args, b, k + 1, public, m1, m2, f);
                }
                lemma_then_prefix(first1, first2, n1, n2,
                    query_from(db, natives, h, args, b, k + 1, public, m1, f),
                    query_from(db, natives, h, args, b, k + 1, public, m2, f));
            }
        }
    }
}

/// [`lemma_clauses_prefix`] for a query with the values of its arguments.
pub proof fn lemma_query_prefix(db: Seq<(HandleView, EntryView<Clause>)>, natives: Seq<NativeAnswer>, h: HandleView, args: Seq<Pattern>, b: BindingView, public: bool, n1: nat, n2: nat, fuel: nat)
    requires
        n1 <= n2,
    ensures
        answers_prefix(
            query_answers(db, natives, h, args, b, public, n1, fuel),
            query_answers(db, natives, h, args, b, public, n2, fuel),
            n1,
        ),
    decreases fuel,
{
    let r2 = query_answers(db, natives, h, args, b, public, n2, fuel);
    if r2 is Ok {
        lemma_limited_facts(r2->Ok_0, n1);
    }
    if fuel > 0 && n1 > 0 {
        let f = (fuel - 1) as nat;
        match lookup_entry(db, h, public, alias_depth(db.len())) {
            Ok(Some(d)) => match d {
                DefinitionView::Static(clauses) => lemma_clauses_prefix(db, natives, clauses, 0, args, b, public, n1, n2, f),
                DefinitionView::Native(i) => match crate::evaluate::applied_args(b, args) {
                    Ok(inputs) => match crate::evaluate::native_rows(natives, i, inputs, 0) {
                        Some(rows) => lemma_limited_twice(crate::evaluate::rows_answers(rows, args, b), n1, n2),
                        None => {},
                    },
                    Err(_) => {},
                },
                _ => {},
            },
            _ => {},
        }
    }
}

/// [`lemma_clauses_prefix`] for an operator, under the `k`-th binding of its left side on.
pub proof fn lemma_infix_from_prefix(db: Seq<(HandleView, EntryView<Clause>)>, natives: Seq<NativeAnswer>, lhs: Term, op: HandleView, rhs: Term, dest: Pattern, b: BindingView, k: nat, public: bool, n1: nat, n2: nat, fuel: nat)
    requires
        n1 <= n2,
    ensures
        answers_prefix(
            infix_from(db, natives, lhs, op, rhs, dest, b, k, public, n1, fuel),
            infix_from(db, natives, lhs, op, rhs, dest, b, k, public, n2, fuel),
            n1,
        ),
    decreases fuel,
{
    let r2 = infix_from(db, natives, lhs, op, rhs, dest, b, k, public, n2, fuel);
    if r2 is Ok {
        lemma_limited_facts(r2->Ok_0, n1);
    }
    if fuel > 0 && n1 > 0 && k < usize::MAX {
        let f = (fuel - 1) as nat;
        let t = term_answers(db, natives, lhs, b, public, k + 1, f);
        if t is Ok && t->Ok_0.1.len() > k {
            let lp = t->Ok_0.0;
            let next = t->Ok_0.1[k as int];
            lemma_infix_right_prefix(db, natives, lp, op, rhs, dest, next, 0, public, n1, n2, f);
            let c2 = infix_right(db, natives, lp, op, rhs, dest, next, 0, public, n2, f);
            if c2 is Ok {
                let first2 = c2->Ok_0;
                let first1 = limited(first2, n1);
                lemma_limited_facts(first2, n1);
                let m1 = (n1 - first1.len()) as nat;
                let m2 = (n2 - first2.len()) as nat;
                if first1.len() < n1 && first2.len() < n2 {
                    lemma_infix_from_prefix(db, natives, lhs, op, rhs, dest, b, k + 1, public, m1, m2, f);
                }
                lemma_then_prefix(first1, first2, n1, n2,
                    infix_from(db, natives, lhs, op, rhs, dest, b, k + 1, public, m1, f),
                    infix_from(db, natives, lhs, op, rhs, dest, b, k + 1, public, m2, f));
            }
        }
    }
}

/// [`lemma_clauses_prefix`] for an operator with the value of its left side, under the
/// `k`-th binding of its right side on.
pub proof fn lemma_infix_right_prefix(db: Seq<(HandleView, EntryView<Clause>)>, natives: Seq<NativeAnswer>, lp: Pattern, op: HandleView, rhs: Term, dest: Pattern, c: BindingView, k: nat, public: bool, n1: nat, n2: nat, fuel: nat)
    requires
        n1 <= n2,
    ensures
        answers_prefix(
            infix_right(db, natives, lp, op, rhs, dest, c, k, public, n1, fuel),
            infix_right(db, natives, lp, op, rhs, dest, c, k, public, n2, fuel),
            n1,
        ),
    decreases fuel,
{
    let r2 = infix_right(db, natives, lp, op, rhs, dest, c, k, public, n2, fuel);
    if r2 is Ok {
        lemma_limited_facts(r2->Ok_0, n1);
    }
    if fuel > 0 && n1 > 0 && k < usize::MAX {
        let f = (fuel - 1) as nat;
        let t = term_answers(db, natives, rhs, c, public, k + 1, f);
        if t is Ok && t->Ok_0.1.len() > k {
            let rp = t->Ok_0.0;
            let next = t->Ok_0.1[k as int];
            lemma_query_prefix(db, natives, op, seq![lp, rp, dest], next, public, n1, n2, f);
            let c2 = query_answers(db, natives, op, seq![lp, rp, dest], next, public, n2, f);
            if c2 is Ok {
                let first2 = c2->Ok_0;
                let first1 = limited(first2, n1);
                lemma_limited_facts(first2, n1);
                let m1 = (n1 - first1.len()) as nat;
                let m2 = (n2 - first2.len()) as nat;
                if first1.len() < n1 && first2.len() < n2 {
                    lemma_infix_right_prefix(db, natives, lp, op, rhs, dest, c, k + 1, public, m1, m2, f);
                }
                lemma_then_prefix(first1, first2, n1, n2,
                    infix_right(db, natives, lp, op, rhs, dest, c, k + 1, public, m1, f),
                    infix_right(db, natives, lp, op, rhs, dest, c, k + 1, public, m2, f));
            }
        }
    }
}

/// Asking a definition for fewer answers gives the first of the answers that asking it for
/// more gives: when asking for `n2` answers succeeds, asking for `n1 <= n2` succeeds too,
/// with the first `n1` of them. The first answers never wait on later ones.
pub proof fn lemma_fewer_answers_of_a_definition(db: Seq<(HandleView, EntryView<Clause>)>, natives: Seq<NativeAnswer>, clauses: Seq<Clause>, args: Seq<Pattern>, binding: BindingView, public: bool, n1: nat, n2: nat, fuel: nat)
    requires
        n1 <= n2,
    ensures
        answers_prefix(
            definition_answers(db, natives, clauses, args, binding, public, n1, fuel),
            definition_answers(db, natives, clauses, args, binding, public, n2, fuel),
            n1,
        ),
{
    lemma_clauses_prefix(db, natives, clauses, 0, args, binding, public, n1, n2, fuel);
}

/// [`lemma_fewer_answers_of_a_definition`] for a body.
pub proof fn lemma_fewer_answers_of_a_body(db: Seq<(HandleView, EntryView<Clause>)>, natives: Seq<NativeAnswer>, body: Disjunction, binding: BindingView, public: bool, n1: nat, n2: nat, fuel: nat)
    requires
        n1 <= n2,
    ensures
        answers_prefix(
            body_answers(db, natives, body, binding, public, n1, fuel),
            body_answers(db, natives, body, binding, public, n2, fuel),
            n1,
        ),
{
    lemma_disjunction_prefix(db, natives, body.cases@, 0, binding, public, n1, n2, fuel);
}

/// [`lemma_fewer_answers_of_a_definition`] for a term: the same value, in the first of the
/// bindings in which it holds.
pub proof fn lemma_fewer_bindings_of_a_term(db: Seq<(HandleView, EntryView<Clause>)>, natives: Seq<NativeAnswer>, t: Term, b: BindingView, public: bool, n1: nat, n2: nat, fuel: nat)
    requires
        n1 <= n2,
    ensures
        term_prefix(
            term_answers(db, natives, t, b, public, n1, fuel),
            term_answers(db, natives, t, b, public, n2, fuel),
            n1,
        ),
{
    if fuel > 0 {
        let f = (fuel - 1) as nat;
        lemma_limited_facts(seq![b], n1);
        lemma_limited_facts(Seq::<BindingView>::empty(), n1);
        if let Term::InfixOp(lhs, op, rhs) = t {
            lemma_infix_from_prefix(db, natives, *lhs, op@, *rhs, crate::binding::self_pattern(b.next_fresh()), b.with_fresh(), 0, public, n1, n2, f);
        }
    }
}
} // verus!
