use lumber::atom::{Atom, Atomizer};
use lumber::binding::Binding;
use lumber::literal::Literal;
use lumber::pattern::{FieldList, Pattern, PatternKind, PatternList};
use lumber::unify::unify_patterns;

fn yes(lhs: &Pattern, rhs: &Pattern, binding: &Binding) {
    assert!(unify_patterns(lhs.copy(), rhs.copy(), binding.copy()).is_some());
}

fn no(lhs: &Pattern, rhs: &Pattern, binding: &Binding) {
    assert!(unify_patterns(lhs.copy(), rhs.copy(), binding.copy()).is_none());
}

fn fresh() -> Binding {
    Binding::empty()
}

fn name(atoms: &mut Atomizer, text: &str) -> Atom {
    atoms.atomize_str(text)
}

fn atom(atoms: &mut Atomizer, text: &str) -> Pattern {
    Pattern::from_kind(PatternKind::Struct(name(atoms, text), None))
}

fn var(binding: &mut Binding) -> Pattern {
    Pattern::from_kind(PatternKind::Variable(binding.fresh_variable()))
}

fn integer(value: i64) -> Pattern {
    Pattern::from_kind(PatternKind::Literal(Literal::Integer(value)))
}

fn rat(value: i64) -> Pattern {
    Pattern::from_kind(PatternKind::Literal(Literal::Rational(value, 1)))
}

fn string(value: &str) -> Pattern {
    Pattern::from_kind(PatternKind::Literal(Literal::String(value.to_string())))
}

fn unbound() -> Pattern {
    Pattern::from_kind(PatternKind::Unbound)
}

fn bound() -> Pattern {
    Pattern::from_kind(PatternKind::Bound)
}

fn list(items: &[&Pattern]) -> Pattern {
    let items: Vec<Pattern> = items.iter().map(|p| p.copy()).collect();
    Pattern::list(PatternList::from_vec(items), None)
}

fn list_rest(items: &[&Pattern], rest: &Pattern) -> Pattern {
    let items: Vec<Pattern> = items.iter().map(|p| p.copy()).collect();
    Pattern::list(PatternList::from_vec(items), Some(rest.copy()))
}

fn structure(atoms: &mut Atomizer, text: &str, contents: &Pattern) -> Pattern {
    Pattern::from_kind(PatternKind::Struct(name(atoms, text), Some(contents.copy())))
}

fn record(atoms: &mut Atomizer, fields: &[(&str, &Pattern)]) -> Pattern {
    let mut list = FieldList::Nil;
    for (key, value) in fields {
        list = list.insert(name(atoms, key), value.copy());
    }
    Pattern::record(list, None)
}

fn record_rest(atoms: &mut Atomizer, fields: &[(&str, &Pattern)], rest: &Pattern) -> Pattern {
    let mut list = FieldList::Nil;
    for (key, value) in fields {
        list = list.insert(name(atoms, key), value.copy());
    }
    Pattern::record(list, Some(rest.copy()))
}

fn all(items: &[&Pattern]) -> Pattern {
    let items: Vec<Pattern> = items.iter().map(|p| p.copy()).collect();
    Pattern::from_kind(PatternKind::All(PatternList::from_vec(items)))
}

#[test]
fn unify_literal_integer() {
    yes(&integer(3), &integer(3), &fresh());
}

#[test]
fn no_unify_literal_integer() {
    no(&integer(3), &integer(4), &fresh());
}

#[test]
fn unify_literal_rational() {
    yes(&rat(3), &rat(3), &fresh());
}

#[test]
fn no_unify_literal_rational() {
    no(&rat(3), &rat(4), &fresh());
}

#[test]
fn unify_literal_string() {
    yes(&string("hello"), &string("hello"), &fresh());
}

#[test]
fn no_unify_literal_string() {
    no(&string("hello"), &string("world"), &fresh());
}

#[test]
fn unify_atom() {
    let mut atoms = Atomizer::new();
    yes(&atom(&mut atoms, "true"), &atom(&mut atoms, "true"), &fresh());
}

#[test]
fn no_unify_atom() {
    let mut atoms = Atomizer::new();
    no(&atom(&mut atoms, "true"), &atom(&mut atoms, "false"), &fresh());
}

#[test]
fn unify_struct() {
    let mut atoms = Atomizer::new();
    let mut binding = Binding::empty();
    let world = atom(&mut atoms, "world");
    yes(
        &structure(&mut atoms, "hello", &world),
        &structure(&mut atoms, "hello", &world),
        &fresh(),
    );

    let one = list(&[&rat(1)]);
    yes(
        &structure(&mut atoms, "hello", &one),
        &structure(&mut atoms, "hello", &one),
        &fresh(),
    );

    let x = var(&mut binding);
    let hello = atom(&mut atoms, "hello");
    yes(
        &structure(&mut atoms, "hello", &x),
        &structure(&mut atoms, "hello", &hello),
        &binding,
    );

    let r1 = record(&mut atoms, &[("a", &integer(1)), ("b", &integer(2))]);
    let r2 = record(&mut atoms, &[("a", &integer(1)), ("b", &integer(2))]);
    yes(
        &structure(&mut atoms, "hello", &r1),
        &structure(&mut atoms, "hello", &r2),
        &fresh(),
    );
}

#[test]
fn no_unify_struct() {
    let mut atoms = Atomizer::new();
    let world = atom(&mut atoms, "world");
    no(
        &structure(&mut atoms, "hello", &world),
        &structure(&mut atoms, "world", &world),
        &fresh(),
    );
    no(&world, &structure(&mut atoms, "world", &world), &fresh());
}

#[test]
fn unify_record() {
    let mut atoms = Atomizer::new();
    let mut binding = Binding::empty();
    let x = var(&mut binding);
    let y = var(&mut binding);
    yes(&record(&mut atoms, &[]), &record(&mut atoms, &[]), &fresh());
    yes(
        &record(&mut atoms, &[("a", &integer(1))]),
        &record(&mut atoms, &[("a", &integer(1))]),
        &fresh(),
    );
    yes(
        &record(&mut atoms, &[("a", &integer(1))]),
        &record_rest(&mut atoms, &[("a", &integer(1))], &x),
        &binding,
    );
    yes(
        &record(&mut atoms, &[("a", &integer(1)), ("b", &integer(2))]),
        &record_rest(&mut atoms, &[("a", &integer(1))], &x),
        &binding,
    );
    yes(
        &record_rest(&mut atoms, &[("a", &integer(1)), ("b", &integer(2))], &x),
        &record_rest(&mut atoms, &[("a", &integer(1))], &y),
        &binding,
    );
    yes(
        &record_rest(&mut atoms, &[("a", &integer(1)), ("b", &integer(2))], &x),
        &record_rest(&mut atoms, &[("a", &integer(1)), ("c", &integer(3))], &y),
        &binding,
    );
}

#[test]
fn no_unify_record() {
    let mut atoms = Atomizer::new();
    let mut binding = Binding::empty();
    let x = var(&mut binding);
    let y = var(&mut binding);
    no(&record(&mut atoms, &[]), &record(&mut atoms, &[("a", &integer(1))]), &fresh());
    no(
        &record(&mut atoms, &[("a", &integer(1))]),
        &record(&mut atoms, &[("a", &integer(2))]),
        &fresh(),
    );
    no(
        &record(&mut atoms, &[("a", &integer(2))]),
        &record_rest(&mut atoms, &[("a", &integer(1))], &x),
        &binding,
    );
    no(
        &record_rest(&mut atoms, &[("a", &integer(1)), ("b", &integer(2))], &x),
        &record_rest(&mut atoms, &[("a", &integer(1)), ("b", &integer(3))], &y),
        &binding,
    );
}

#[test]
fn unify_variable() {
    let mut atoms = Atomizer::new();
    let mut binding = Binding::empty();
    let x = var(&mut binding);
    let y = var(&mut binding);
    let z = var(&mut binding);
    yes(&x, &z, &binding);
    yes(&x, &x, &binding);
    yes(&x, &y, &binding);
    yes(&x, &integer(3), &binding);
    yes(&x, &atom(&mut atoms, "hello"), &binding);
    yes(&x, &structure(&mut atoms, "hello", &integer(3)), &binding);
    yes(&x, &list(&[&integer(3), &integer(4)]), &binding);
    yes(&x, &list(&[&y]), &binding);
}

#[test]
fn unify_multiple_variables() {
    let mut atoms = Atomizer::new();
    let mut binding = Binding::empty();
    let x = var(&mut binding);
    let y = var(&mut binding);
    let z = var(&mut binding);
    yes(&structure(&mut atoms, "test", &list(&[&x, &y])), &z, &binding);
    yes(
        &structure(&mut atoms, "test", &list(&[&x, &y])),
        &structure(&mut atoms, "test", &list(&[&integer(3), &x])),
        &binding,
    );
    yes(
        &structure(&mut atoms, "test", &list(&[&x, &y])),
        &structure(&mut atoms, "test", &list(&[&integer(3), &integer(4)])),
        &binding,
    );
    no(
        &structure(&mut atoms, "test", &list(&[&x, &x])),
        &structure(&mut atoms, "test", &list(&[&integer(3), &integer(4)])),
        &binding,
    );
    yes(
        &structure(&mut atoms, "test", &list(&[&integer(3), &y])),
        &structure(&mut atoms, "test", &list(&[&x, &integer(4)])),
        &binding,
    );
    no(
        &structure(&mut atoms, "test", &list(&[&integer(3), &x])),
        &structure(&mut atoms, "test", &list(&[&x, &integer(4)])),
        &binding,
    );
    yes(&list(&[&x, &y]), &list(&[&integer(1), &integer(2)]), &binding);
    no(&list(&[&x, &x]), &list(&[&integer(1), &integer(2)]), &binding);
    yes(&list_rest(&[&x], &x), &list(&[&list(&[&integer(1)]), &integer(1)]), &binding);
    no(&list_rest(&[&x], &x), &list(&[&integer(1), &integer(1)]), &binding);
    yes(&list_rest(&[&integer(1)], &x), &list_rest(&[&integer(1), &integer(2)], &y), &binding);

    yes(
        &record_rest(&mut atoms, &[("a", &x), ("b", &integer(0))], &x),
        &record_rest(&mut atoms, &[("c", &integer(1)), ("d", &integer(2))], &y),
        &binding,
    );
    let inner = record(&mut atoms, &[("c", &integer(1)), ("d", &integer(2))]);
    yes(
        &record_rest(&mut atoms, &[("a", &x), ("b", &integer(0))], &x),
        &record_rest(&mut atoms, &[("c", &integer(1)), ("d", &integer(2)), ("a", &inner)], &y),
        &binding,
    );
}

#[test]
fn no_unify_variable_occurs() {
    let mut atoms = Atomizer::new();
    let mut binding = Binding::empty();
    let x = var(&mut binding);
    no(&x, &list(&[&x]), &binding);
    no(&x, &list_rest(&[&integer(3)], &x), &binding);
    no(&x, &structure(&mut atoms, "hello", &x), &binding);
    no(&list_rest(&[&integer(1)], &x), &list_rest(&[&integer(1), &integer(2)], &x), &binding);
}

#[test]
fn unify_list() {
    let mut binding = Binding::empty();
    let x = var(&mut binding);
    let y = var(&mut binding);
    let z = var(&mut binding);
    yes(&list(&[&integer(1), &integer(2)]), &list(&[&integer(1), &integer(2)]), &fresh());
    yes(
        &list_rest(&[&integer(1), &integer(2)], &x),
        &list(&[&integer(1), &integer(2), &integer(3)]),
        &binding,
    );
    yes(&list_rest(&[&integer(1), &integer(2)], &x), &list(&[&integer(1), &integer(2)]), &binding);
    yes(&list_rest(&[&integer(1)], &x), &list(&[&integer(1), &integer(2), &integer(3)]), &binding);
    yes(&list_rest(&[&integer(1)], &list(&[&integer(2)])), &list(&[&integer(1), &integer(2)]), &fresh());
    yes(
        &list_rest(&[&integer(1)], &list_rest(&[&x], &list(&[&integer(2)]))),
        &list(&[&integer(1), &integer(3), &integer(2)]),
        &binding,
    );
    yes(&list_rest(&[&integer(1)], &x), &list_rest(&[&y], &z), &binding);
    yes(&list_rest(&[&integer(1)], &x), &list_rest(&[&integer(1), &integer(2)], &y), &binding);
    yes(&list(&[]), &list(&[]), &fresh());
    yes(&list(&[&integer(1)]), &list_rest(&[&integer(1)], &list(&[])), &fresh());
}

#[test]
fn no_unify_list() {
    let mut binding = Binding::empty();
    let x = var(&mut binding);
    let y = var(&mut binding);
    no(&list(&[&integer(1), &integer(2)]), &list(&[&integer(3), &integer(4)]), &fresh());
    no(&list(&[&integer(1), &integer(2)]), &list_rest(&[&integer(3)], &x), &binding);
    no(&list(&[&integer(1), &integer(2)]), &list(&[]), &fresh());
    no(&list(&[&x]), &list(&[]), &binding);
    no(&list_rest(&[&x], &y), &list(&[]), &binding);
    no(&list(&[&integer(1)]), &list(&[&integer(1), &integer(2)]), &fresh());
}

#[test]
fn unify_unbound() {
    let mut binding = Binding::empty();
    let x = var(&mut binding);
    let y = var(&mut binding);
    yes(&unbound(), &x, &binding);
    yes(&all(&[&unbound(), &integer(3)]), &x, &binding);
    yes(&all(&[&unbound(), &x]), &y, &binding);
    yes(&list(&[&all(&[&unbound(), &x]), &x]), &list(&[&y, &integer(3)]), &binding);
    yes(&list(&[&x, &all(&[&unbound(), &x])]), &list(&[&integer(3), &y]), &binding);
}

#[test]
fn no_unify_unbound() {
    let mut binding = Binding::empty();
    let x = var(&mut binding);
    no(&unbound(), &integer(3), &fresh());
    no(&all(&[&unbound(), &integer(3)]), &integer(3), &fresh());
    no(&all(&[&unbound(), &x]), &integer(3), &binding);
}

#[test]
fn unify_bound() {
    let mut binding = Binding::empty();
    let x = var(&mut binding);
    yes(&bound(), &integer(3), &fresh());
    yes(&all(&[&bound(), &integer(3)]), &integer(3), &fresh());
    yes(&all(&[&bound(), &x]), &integer(3), &binding);
}

#[test]
fn no_unify_bound() {
    let mut binding = Binding::empty();
    let x = var(&mut binding);
    let y = var(&mut binding);
    no(&bound(), &y, &binding);
    no(&all(&[&bound(), &integer(3)]), &x, &binding);
    no(&all(&[&bound(), &x]), &y, &binding);
    no(&list(&[&all(&[&bound(), &x]), &x]), &list(&[&y, &integer(3)]), &binding);
    no(&list(&[&x, &all(&[&bound(), &x])]), &list(&[&integer(3), &y]), &binding);
}

#[test]
fn variable_unifies_only_once() {
    let mut binding = Binding::empty();
    let x = var(&mut binding);
    let after = unify_patterns(x.copy(), integer(3), binding.copy()).unwrap();
    assert!(unify_patterns(x.copy(), integer(3), after.copy()).is_some());
    assert!(unify_patterns(x.copy(), integer(4), after.copy()).is_none());
}

#[test]
fn unification_keeps_every_entry() {
    let mut binding = Binding::empty();
    let x = var(&mut binding);
    let y = var(&mut binding);
    let before = binding.len();
    let after = unify_patterns(list(&[&x, &y]), list(&[&integer(1), &integer(2)]), binding).unwrap();
    assert!(after.len() >= before);
    assert_eq!(after.generation(), 0);
}

#[test]
fn rationals_unify_by_value() {
    let half = Pattern::from_kind(PatternKind::Literal(Literal::Rational(1, 2)));
    let two_quarters = Pattern::from_kind(PatternKind::Literal(Literal::Rational(2, 4)));
    yes(&half, &two_quarters, &fresh());
}

#[test]
fn lists_of_different_lengths_do_not_unify() {
    no(&list(&[&integer(1)]), &list(&[&integer(1), &integer(1)]), &fresh());
    no(&list(&[]), &list(&[&integer(1)]), &fresh());
}

#[test]
fn values_unify_exactly_when_equal_either_way() {
    let mut atoms = Atomizer::new();
    let binding = fresh();
    let half = Pattern::from_kind(PatternKind::Literal(Literal::Rational(2, 4)));
    let also_half = Pattern::from_kind(PatternKind::Literal(Literal::Rational(1, 2)));
    let x = structure(&mut atoms, "s", &string("x"));
    let y = structure(&mut atoms, "s", &string("y"));
    let a = record(&mut atoms, &[("k", &list(&[&integer(1), &x])), ("r", &half)]);
    let b = record(&mut atoms, &[("k", &list(&[&integer(1), &x])), ("r", &also_half)]);
    let c = record(&mut atoms, &[("k", &list(&[&integer(1), &y])), ("r", &half)]);
    let after = unify_patterns(a.copy(), b.copy(), binding.copy()).unwrap();
    assert_eq!(after.len(), binding.len());
    yes(&b, &a, &binding);
    no(&a, &c, &binding);
    no(&c, &a, &binding);
}
