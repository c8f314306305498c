use lumber::arity::Arity;
use lumber::atom::{Atom, Atomizer};
use lumber::binding::Binding;
use lumber::context::{Context, ContextError};
use lumber::module::{compile_module, ModuleItem};
use lumber::database::Database;
use lumber::evaluate::{Clause, Conjunction, Disjunction, EvalError, NativeAnswer, Procession, RuleKind, Step, Term};
use lumber::handle::Handle;
use lumber::identifier::Identifier;
use lumber::literal::Literal;
use lumber::module_header::ModuleHeader;
use lumber::pattern::{Pattern, PatternKind, PatternList};
use lumber::scope::Scope;
use lumber::variable::Variable;

const FUEL: u64 = 1_000_000;

/// As many answers as there are.
const ALL: usize = usize::MAX;

fn no_natives() -> Vec<NativeAnswer> {
    vec![]
}

fn handle(name: Atom, arity: u64) -> Handle {
    Handle::new_in_scope(Scope::root(), name, vec![Arity::Len(arity)])
}

fn integer(value: i64) -> Pattern {
    Pattern::from_kind(PatternKind::Literal(Literal::Integer(value)))
}

fn value_of(p: &Pattern) -> i64 {
    match p.kind() {
        PatternKind::Literal(Literal::Integer(value)) => *value,
        other => panic!("not an integer: {:?}", other),
    }
}

/// A variable of a clause, placed in a generation when the clause is entered.
fn rule_var(index: usize) -> Pattern {
    Pattern::from_kind(PatternKind::Variable(Variable::new_generationless(Identifier::new(index))))
}

fn fact(args: Vec<Pattern>) -> Clause {
    Clause { head: args, kind: RuleKind::Multi, body: None, variables: vec![] }
}

fn query(h: &Handle, args: Vec<Pattern>) -> Step {
    Step::Query(h.copy(), args.into_iter().map(Term::Value).collect())
}

fn procession(steps: Vec<Step>) -> Procession {
    Procession { steps }
}

fn conjunction(terms: Vec<Procession>) -> Conjunction {
    Conjunction { terms }
}

fn body(cases: Vec<(Conjunction, Option<Conjunction>)>) -> Disjunction {
    Disjunction { cases }
}

fn single(step: Step) -> Disjunction {
    body(vec![(conjunction(vec![procession(vec![step])]), None)])
}

struct World {
    p: Handle,
    q: Handle,
    add: Handle,
    r: Handle,
    db: Database<Clause>,
}

/// p(1). p(2). q(X) :- p(X). add(1, 2, 3).
fn world() -> World {
    let mut atoms = Atomizer::new();
    let p = handle(atoms.atomize_str("p"), 1);
    let q = handle(atoms.atomize_str("q"), 1);
    let add = handle(atoms.atomize_str("add"), 3);
    let r = handle(atoms.atomize_str("r"), 1);
    let q_rule = Clause {
        head: vec![rule_var(0)],
        kind: RuleKind::Multi,
        body: Some(single(query(&p, vec![rule_var(0)]))),
        variables: vec![],
    };
    let db = Database::new(vec![
        (p.copy(), vec![fact(vec![integer(1)]), fact(vec![integer(2)])]),
        (q.copy(), vec![q_rule]),
        (add.copy(), vec![fact(vec![integer(1), integer(2), integer(3)])]),
    ]);
    World { p, q, add, r, db }
}

fn list_values(list: &PatternList) -> Vec<i64> {
    let mut out = vec![];
    let mut rest = list;
    while let PatternList::Cons(head, tail) = rest {
        out.push(value_of(head));
        rest = tail;
    }
    out
}

fn values(answers: &[Binding], x: &Pattern) -> Vec<i64> {
    answers.iter().map(|b| value_of(&b.apply(x).unwrap())).collect()
}

#[test]
fn facts_answer_in_order() {
    let w = world();
    let mut binding = Binding::empty();
    let x = Pattern::from_kind(PatternKind::Variable(binding.fresh_variable()));
    let answers = w.db.unify_body(&no_natives(), &single(query(&w.p, vec![x.copy()])), &binding, false, ALL, FUEL).unwrap();
    assert_eq!(values(&answers, &x), vec![1, 2]);
}

#[test]
fn fact_rejects_other_values() {
    let w = world();
    let binding = Binding::empty();
    let answers = w.db.unify_body(&no_natives(), &single(query(&w.p, vec![integer(3)])), &binding, false, ALL, FUEL).unwrap();
    assert!(answers.is_empty());
    let answers = w.db.unify_body(&no_natives(), &single(query(&w.p, vec![integer(2)])), &binding, false, ALL, FUEL).unwrap();
    assert_eq!(answers.len(), 1);
}

#[test]
fn rule_answers_through_its_body() {
    let w = world();
    let mut binding = Binding::empty();
    let x = Pattern::from_kind(PatternKind::Variable(binding.fresh_variable()));
    let answers = w.db.unify_body(&no_natives(), &single(query(&w.q, vec![x.copy()])), &binding, false, ALL, FUEL).unwrap();
    assert_eq!(values(&answers, &x), vec![1, 2]);
    for answer in &answers {
        assert_eq!(answer.generation(), binding.generation());
    }
}

#[test]
fn unify_definition_gives_each_matching_clause() {
    let w = world();
    let mut binding = Binding::empty();
    let x = Pattern::from_kind(PatternKind::Variable(binding.fresh_variable()));
    let clauses = vec![fact(vec![integer(7)]), fact(vec![integer(8)])];
    let answers = w.db.unify_definition(&no_natives(), &clauses, &[x.copy()], &binding, false, ALL, FUEL).unwrap();
    assert_eq!(values(&answers, &x), vec![7, 8]);
}

#[test]
fn once_rule_stops_after_first_matching_clause() {
    let w = world();
    let mut binding = Binding::empty();
    let x = Pattern::from_kind(PatternKind::Variable(binding.fresh_variable()));
    let mut first = fact(vec![integer(7)]);
    first.kind = RuleKind::Once;
    let mut second = fact(vec![integer(8)]);
    second.kind = RuleKind::Once;
    let clauses = vec![first, second];
    let answers = w.db.unify_definition(&no_natives(), &clauses, &[x.copy()], &binding, false, ALL, FUEL).unwrap();
    assert_eq!(values(&answers, &x), vec![7]);
    // A clause whose head does not match does not stop the search.
    let answers = w.db.unify_definition(&no_natives(), &clauses, &[integer(8)], &binding, false, ALL, FUEL).unwrap();
    assert_eq!(answers.len(), 1);
}

#[test]
fn conjunction_carries_every_answer() {
    let w = world();
    let mut binding = Binding::empty();
    let x = Pattern::from_kind(PatternKind::Variable(binding.fresh_variable()));
    let y = Pattern::from_kind(PatternKind::Variable(binding.fresh_variable()));
    let both = body(vec![(
        conjunction(vec![
            procession(vec![query(&w.p, vec![x.copy()])]),
            procession(vec![query(&w.p, vec![y.copy()])]),
        ]),
        None,
    )]);
    let answers = w.db.unify_body(&no_natives(), &both, &binding, false, ALL, FUEL).unwrap();
    assert_eq!(values(&answers, &x), vec![1, 1, 2, 2]);
    assert_eq!(values(&answers, &y), vec![1, 2, 1, 2]);
}

#[test]
fn procession_carries_only_first_answer() {
    let w = world();
    let mut binding = Binding::empty();
    let x = Pattern::from_kind(PatternKind::Variable(binding.fresh_variable()));
    let y = Pattern::from_kind(PatternKind::Variable(binding.fresh_variable()));
    let steps = body(vec![(
        conjunction(vec![procession(vec![query(&w.p, vec![x.copy()]), query(&w.p, vec![y.copy()])])]),
        None,
    )]);
    let answers = w.db.unify_body(&no_natives(), &steps, &binding, false, ALL, FUEL).unwrap();
    assert_eq!(values(&answers, &x), vec![1, 1]);
    assert_eq!(values(&answers, &y), vec![1, 2]);
}

#[test]
fn disjunction_gives_every_case() {
    let w = world();
    let mut binding = Binding::empty();
    let x = Pattern::from_kind(PatternKind::Variable(binding.fresh_variable()));
    let either = body(vec![
        (conjunction(vec![procession(vec![query(&w.p, vec![x.copy()])])]), None),
        (conjunction(vec![procession(vec![Step::Unification(Term::Value(x.copy()), Term::Value(integer(5)))])]), None),
    ]);
    let answers = w.db.unify_body(&no_natives(), &either, &binding, false, ALL, FUEL).unwrap();
    assert_eq!(values(&answers, &x), vec![1, 2, 5]);
}

#[test]
fn tail_keeps_first_answer_and_skips_later_cases() {
    let w = world();
    let mut binding = Binding::empty();
    let x = Pattern::from_kind(PatternKind::Variable(binding.fresh_variable()));
    let y = Pattern::from_kind(PatternKind::Variable(binding.fresh_variable()));
    let cut = body(vec![
        (
            conjunction(vec![procession(vec![query(&w.p, vec![x.copy()])])]),
            Some(conjunction(vec![procession(vec![Step::Unification(Term::Value(y.copy()), Term::Value(x.copy()))])])),
        ),
        (conjunction(vec![procession(vec![Step::Unification(Term::Value(y.copy()), Term::Value(integer(5)))])]), None),
    ]);
    let answers = w.db.unify_body(&no_natives(), &cut, &binding, false, ALL, FUEL).unwrap();
    assert_eq!(values(&answers, &y), vec![1]);
}

#[test]
fn tail_case_without_answers_falls_through() {
    let w = world();
    let mut binding = Binding::empty();
    let y = Pattern::from_kind(PatternKind::Variable(binding.fresh_variable()));
    let cut = body(vec![
        (
            conjunction(vec![procession(vec![query(&w.p, vec![integer(9)])])]),
            Some(conjunction(vec![procession(vec![Step::Unification(Term::Value(y.copy()), Term::Value(integer(1)))])])),
        ),
        (conjunction(vec![procession(vec![Step::Unification(Term::Value(y.copy()), Term::Value(integer(5)))])]), None),
    ]);
    let answers = w.db.unify_body(&no_natives(), &cut, &binding, false, ALL, FUEL).unwrap();
    assert_eq!(values(&answers, &y), vec![5]);
}

#[test]
fn infix_operator_is_a_query_of_its_predicate() {
    let w = world();
    let binding = Binding::empty();
    let sum = Term::InfixOp(Box::new(Term::Value(integer(1))), w.add.copy(), Box::new(Term::Value(integer(2))));
    let (result, answers) = w.db.evaluate_term(&no_natives(), &sum, &binding, false, ALL, FUEL).unwrap();
    assert!(matches!(result.kind(), PatternKind::Variable(_)));
    assert_eq!(values(&answers, &result), vec![3]);
    let wrong = Term::InfixOp(Box::new(Term::Value(integer(2))), w.add.copy(), Box::new(Term::Value(integer(2))));
    let (_, answers) = w.db.evaluate_term(&no_natives(), &wrong, &binding, false, ALL, FUEL).unwrap();
    assert!(answers.is_empty());
}

#[test]
fn list_aggregation_collects_every_answer() {
    let w = world();
    let mut binding = Binding::empty();
    let x = Pattern::from_kind(PatternKind::Variable(binding.fresh_variable()));
    let all = Term::ListAggregation(x.copy(), single(query(&w.p, vec![x.copy()])));
    let (result, answers) = w.db.evaluate_term(&no_natives(), &all, &binding, false, ALL, FUEL).unwrap();
    assert_eq!(answers.len(), 1);
    match result.kind() {
        PatternKind::List(items, None) => assert_eq!(list_values(items), vec![1, 2]),
        other => panic!("not a list: {:?}", other),
    }
}

#[test]
fn value_term_holds_in_the_binding_itself() {
    let w = world();
    let binding = Binding::empty();
    let (result, answers) = w.db.evaluate_term(&no_natives(), &Term::Value(integer(4)), &binding, false, ALL, FUEL).unwrap();
    assert_eq!(value_of(&result), 4);
    assert_eq!(answers.len(), 1);
}

#[test]
fn unknown_predicate_has_no_answers() {
    let w = world();
    let answers = w.db.unify_body(&no_natives(), &single(query(&w.r, vec![integer(1)])), &Binding::empty(), false, ALL, FUEL).unwrap();
    assert!(answers.is_empty());
}

#[test]
fn private_predicate_is_hidden_from_public_queries() {
    let w = world();
    let answers = w.db.unify_body(&no_natives(), &single(query(&w.p, vec![integer(1)])), &Binding::empty(), true, ALL, FUEL).unwrap();
    assert!(answers.is_empty());
}

#[test]
fn evaluation_runs_out_of_fuel() {
    let w = world();
    let result = w.db.unify_body(&no_natives(), &single(query(&w.q, vec![integer(1)])), &Binding::empty(), false, ALL, 3);
    assert!(matches!(result, Err(EvalError::Exhausted)));
    let result = w.db.evaluate_term(&no_natives(), &Term::Value(integer(1)), &Binding::empty(), false, ALL, 0);
    assert!(matches!(result, Err(EvalError::Exhausted)));
}

#[test]
fn native_and_mutable_predicates_are_reported() {
    let mut atoms = Atomizer::new();
    let native = handle(atoms.atomize_str("n"), 1);
    let mutable = handle(atoms.atomize_str("m"), 1);
    let mut header = ModuleHeader::new(Scope::root());
    header.insert_native(native.copy());
    header.insert_mutable(mutable.copy());
    let mut db: Database<Clause> = Database::new(vec![]);
    db.apply_header(&header, &vec![native.copy(), mutable.copy()]);
    let result = db.unify_body(&no_natives(), &single(query(&native, vec![integer(1)])), &Binding::empty(), false, ALL, FUEL);
    match result {
        Err(EvalError::Native(0, inputs)) => assert_eq!(inputs.iter().map(value_of).collect::<Vec<_>>(), vec![1]),
        other => panic!("unexpected result {:?}", other),
    }
    let result = db.unify_body(&no_natives(), &single(query(&mutable, vec![integer(1)])), &Binding::empty(), false, ALL, FUEL);
    assert!(matches!(result, Err(EvalError::Mutable)));
}

#[test]
fn native_answers_are_unified_with_the_arguments() {
    let mut atoms = Atomizer::new();
    let native = handle(atoms.atomize_str("n"), 2);
    let mut header = ModuleHeader::new(Scope::root());
    header.insert_native(native.copy());
    let mut db: Database<Clause> = Database::new(vec![]);
    db.apply_header(&header, &vec![native.copy()]);
    let mut binding = Binding::empty();
    let y = Pattern::from_kind(PatternKind::Variable(binding.fresh_variable()));
    let body = single(query(&native, vec![integer(1), y.copy()]));
    // The first evaluation asks the host for the call; the host answers and the
    // evaluation runs again with the answer.
    let mut natives = vec![];
    let answers = loop {
        match db.unify_body(&natives, &body, &binding, false, ALL, FUEL) {
            Ok(answers) => break answers,
            Err(EvalError::Native(index, inputs)) => {
                assert_eq!(index, 0);
                assert_eq!(value_of(&inputs[0]), 1);
                assert!(matches!(inputs[1].kind(), PatternKind::Variable(_)));
                let outputs = vec![vec![integer(1), integer(10)], vec![integer(2), integer(20)], vec![integer(1), integer(30)]];
                natives.push(NativeAnswer { index, inputs, outputs });
            },
            Err(other) => panic!("unexpected error {:?}", other),
        }
    };
    assert_eq!(values(&answers, &y), vec![10, 30]);
}

/// nat(0). nat(s(N)) :- nat(N).
fn naturals() -> (Handle, Atom, Database<Clause>) {
    let mut atoms = Atomizer::new();
    let nat = handle(atoms.atomize_str("nat"), 1);
    let s = atoms.atomize_str("s");
    let zero = Clause { head: vec![integer(0)], kind: RuleKind::Multi, body: None, variables: vec![] };
    let succ = Clause {
        head: vec![Pattern::from_kind(PatternKind::Struct(s, Some(rule_var(0))))],
        kind: RuleKind::Multi,
        body: Some(single(query(&nat, vec![rule_var(0)]))),
        variables: vec![],
    };
    let db = Database::new(vec![(nat.copy(), vec![zero, succ])]);
    (nat, s, db)
}

/// The number of `s` around 0 in `p`.
fn depth(p: &Pattern) -> usize {
    match p.kind() {
        PatternKind::Struct(_, Some(inner)) => 1 + depth(inner),
        PatternKind::Literal(Literal::Integer(0)) => 0,
        other => panic!("not a natural: {:?}", other),
    }
}

#[test]
fn answers_without_end_are_given_as_far_as_asked() {
    let (nat, _, db) = naturals();
    let mut binding = Binding::empty();
    let x = Pattern::from_kind(PatternKind::Variable(binding.fresh_variable()));
    let answers = db.unify_body(&no_natives(), &single(query(&nat, vec![x.copy()])), &binding, false, 3, FUEL).unwrap();
    let depths: Vec<usize> = answers.iter().map(|b| depth(&b.apply(&x).unwrap())).collect();
    assert_eq!(depths, vec![0, 1, 2]);
    // All of them cannot be had: the fuel runs out.
    let all = db.unify_body(&no_natives(), &single(query(&nat, vec![x.copy()])), &binding, false, ALL, 100);
    assert!(matches!(all, Err(EvalError::Exhausted)));
}

#[test]
fn procession_goes_on_with_first_answer_of_an_endless_step() {
    let (nat, _, db) = naturals();
    let mut binding = Binding::empty();
    let x = Pattern::from_kind(PatternKind::Variable(binding.fresh_variable()));
    let y = Pattern::from_kind(PatternKind::Variable(binding.fresh_variable()));
    let steps = body(vec![(
        conjunction(vec![procession(vec![
            query(&nat, vec![x.copy()]),
            Step::Unification(Term::Value(y.copy()), Term::Value(x.copy())),
        ])]),
        None,
    )]);
    let answers = db.unify_body(&no_natives(), &steps, &binding, false, ALL, FUEL).unwrap();
    assert_eq!(answers.len(), 1);
    assert_eq!(depth(&answers[0].apply(&y).unwrap()), 0);
}

#[test]
fn tail_goes_on_with_first_answer_of_an_endless_head() {
    let (nat, _, db) = naturals();
    let mut binding = Binding::empty();
    let x = Pattern::from_kind(PatternKind::Variable(binding.fresh_variable()));
    let y = Pattern::from_kind(PatternKind::Variable(binding.fresh_variable()));
    let cut = body(vec![(
        conjunction(vec![procession(vec![query(&nat, vec![x.copy()])])]),
        Some(conjunction(vec![procession(vec![Step::Unification(Term::Value(y.copy()), Term::Value(x.copy()))])])),
    )]);
    let answers = db.unify_body(&no_natives(), &cut, &binding, false, ALL, FUEL).unwrap();
    assert_eq!(answers.len(), 1);
    assert_eq!(depth(&answers[0].apply(&y).unwrap()), 0);
}

#[test]
fn conjunction_pulls_answers_one_at_a_time() {
    let (nat, _, db) = naturals();
    let mut binding = Binding::empty();
    let x = Pattern::from_kind(PatternKind::Variable(binding.fresh_variable()));
    let both = body(vec![(
        conjunction(vec![
            procession(vec![query(&nat, vec![x.copy()])]),
            procession(vec![Step::Unification(Term::Value(x.copy()), Term::Value(integer(0)))]),
        ]),
        None,
    )]);
    let answers = db.unify_body(&no_natives(), &both, &binding, false, 1, FUEL).unwrap();
    assert_eq!(answers.len(), 1);
    assert_eq!(depth(&answers[0].apply(&x).unwrap()), 0);
}

#[test]
fn module_items_declare_and_gather_clauses() {
    let mut context = Context::new();
    let p_name = context.atomize("p");
    let n_name = context.atomize("n");
    let sub = context.atomize("sub");
    let p = handle(p_name, 1);
    let n = handle(n_name, 1);
    let items = vec![
        ModuleItem::Pub(p.copy()),
        ModuleItem::Clause(p.copy(), fact(vec![integer(1)])),
        ModuleItem::Nat(n.copy()),
        ModuleItem::Mod(sub),
        ModuleItem::Clause(p.copy(), fact(vec![integer(2)])),
        ModuleItem::Mod(sub),
    ];
    let (clauses, submodules) = compile_module(&mut context, items);
    assert_eq!(clauses.len(), 2);
    assert!(clauses.iter().all(|(h, _)| h.same(&p)));
    assert_eq!(submodules, vec![sub]);
    assert!(context.current_scope().same(&Scope::root()));
    let root = &context.modules()[0];
    assert!(root.exports().iter().any(|h| h.same(&p)));
    assert!(root.definitions().iter().any(|h| h.same(&p)));
    assert!(root.natives().iter().any(|h| h.same(&n)));
    assert_eq!(context.modules().len(), 2);
    let errors = context.errors();
    assert_eq!(errors.len(), 1);
    assert!(matches!(&errors[0].1, ContextError::DuplicateModule(_)));
    // The gathered clauses make the program's database.
    let db = Database::new(clauses.into_iter().map(|(h, c)| (h, vec![c])).collect());
    let mut binding = Binding::empty();
    let x = Pattern::from_kind(PatternKind::Variable(binding.fresh_variable()));
    let answers = db.unify_body(&no_natives(), &single(query(&p, vec![x.copy()])), &binding, false, ALL, FUEL).unwrap();
    assert_eq!(values(&answers, &x), vec![1, 2]);
}

#[test]
fn well_formedness_can_be_checked() {
    let w = world();
    assert!(w.db.is_wf());
    let mut binding = Binding::empty();
    assert!(binding.is_wf());
    let _ = binding.fresh_variable();
    assert!(binding.is_wf());
}

#[test]
fn fewer_answers_are_the_first_of_more() {
    let (nat, _, db) = naturals();
    let mut binding = Binding::empty();
    let x = Pattern::from_kind(PatternKind::Variable(binding.fresh_variable()));
    let goal = single(query(&nat, vec![x.copy()]));
    let five = db.unify_body(&no_natives(), &goal, &binding, false, 5, FUEL).unwrap();
    let five_depths: Vec<usize> = five.iter().map(|b| depth(&b.apply(&x).unwrap())).collect();
    assert_eq!(five_depths, vec![0, 1, 2, 3, 4]);
    for n in 0..5usize {
        let fewer = db.unify_body(&no_natives(), &goal, &binding, false, n, FUEL).unwrap();
        let depths: Vec<usize> = fewer.iter().map(|b| depth(&b.apply(&x).unwrap())).collect();
        assert_eq!(depths, five_depths[..n].to_vec());
    }
}
