use lumber::apply::BindingError;
use lumber::arity::{parse_decimal, Arity};
use lumber::atom::Atomizer;
use lumber::binding::Binding;
use lumber::handle::Handle;
use lumber::identifier::{Identifier, IdentifierKind};
use lumber::literal::Literal;
use lumber::pattern::{Pattern, PatternKind, PatternList};
use lumber::scope::{Scope, ScopePrefix};
use lumber::unify::unify_patterns;
use lumber::variable::Variable;
use std::cmp::Ordering;

fn integer(value: i64) -> Pattern {
    Pattern::from_kind(PatternKind::Literal(Literal::Integer(value)))
}

fn is_integer(p: &Pattern, value: i64) -> bool {
    matches!(&*p.kind, PatternKind::Literal(Literal::Integer(v)) if *v == value)
}

#[test]
fn atomize_interns_names() {
    let mut atoms = Atomizer::new();
    let a = atoms.atomize("hello");
    let b = atoms.atomize("world");
    let c = atoms.atomize("hello");
    assert_eq!(a, c);
    assert_ne!(a, b);
    assert_eq!(atoms.len(), 2);
    assert_eq!(atoms.name(a), "hello");
}

#[test]
fn atomize_quoted_atoms() {
    let mut atoms = Atomizer::new();
    let a = atoms.atomize("'hello world'");
    assert_eq!(atoms.name(a), "hello world");
    let b = atoms.atomize("##'a '# b'##");
    assert_eq!(atoms.name(b), "a '# b");
    let c = atoms.atomize("#'hello world'#");
    assert_eq!(a, c);
}

#[test]
fn parse_decimal_values() {
    assert_eq!(parse_decimal("0"), Some(0));
    assert_eq!(parse_decimal("42"), Some(42));
    assert_eq!(parse_decimal("18446744073709551615"), Some(u64::MAX));
    assert_eq!(parse_decimal("18446744073709551616"), None);
    assert_eq!(parse_decimal(""), None);
    assert_eq!(parse_decimal("4a"), None);
}

#[test]
fn arity_of_numbers_and_names() {
    let mut atoms = Atomizer::new();
    assert_eq!(Arity::new("3", &mut atoms), Some(Arity::Len(3)));
    assert_eq!(atoms.len(), 0);
    match Arity::new("name", &mut atoms) {
        Some(Arity::Name(atom)) => assert_eq!(atoms.name(atom), "name"),
        other => panic!("unexpected arity {:?}", other),
    }
    assert_eq!(Arity::new("99999999999999999999", &mut atoms), None);
}

#[test]
fn scope_order() {
    let mut atoms = Atomizer::new();
    let a = atoms.atomize_str("a");
    let b = atoms.atomize_str("b");
    let root = Scope::root();
    let child = root.join(a);
    let grandchild = child.join(b);
    let other = root.join(b);
    assert_eq!(root.partial_cmp(&child), Some(Ordering::Greater));
    assert_eq!(grandchild.partial_cmp(&child), Some(Ordering::Less));
    assert_eq!(child.partial_cmp(&child), Some(Ordering::Equal));
    assert_eq!(child.partial_cmp(&other), None);
    assert!(root.ge(&grandchild));
    assert!(!grandchild.ge(&root));
    let library = Scope::library_root(a);
    assert_eq!(library.partial_cmp(&root), None);
}

#[test]
fn scope_paths() {
    let mut atoms = Atomizer::new();
    let a = atoms.atomize_str("a");
    let b = atoms.atomize_str("b");
    let mut scope = Scope::root().join(a);
    scope.push(b);
    assert_eq!(scope.path(), &[a, b]);
    assert_eq!(scope.head(), b);
    assert!(scope.drop().same(&Scope::root().join(a)));
    scope.pop();
    assert!(scope.same(&Scope::root().join(a)));
    assert!(!scope.is_root());
}

#[test]
fn scope_prefixes() {
    let mut atoms = Atomizer::new();
    let a = atoms.atomize_str("a");
    let b = atoms.atomize_str("b");
    let current = Scope::root().join(a).join(b);
    let up = Scope::from_prefix(ScopePrefix::Up(1), &current).unwrap();
    assert!(up.same(&Scope::root().join(a)));
    assert!(Scope::from_prefix(ScopePrefix::Up(2), &current).unwrap().is_root());
    assert!(Scope::from_prefix(ScopePrefix::Up(3), &current).is_none());
    assert!(Scope::from_prefix(ScopePrefix::Root, &current).unwrap().is_root());
    let lib = Scope::from_prefix(ScopePrefix::Lib(a), &current).unwrap();
    assert_eq!(lib.lib(), Some(a));
    assert!(lib.is_root());
}

#[test]
fn handles_like_and_extend() {
    let mut atoms = Atomizer::new();
    let m = atoms.atomize_str("m");
    let n = atoms.atomize_str("n");
    let p = atoms.atomize_str("p");
    let h1 = Handle::new_in_scope(Scope::root().join(m), p, vec![Arity::Len(2)]);
    let h2 = Handle::new_in_scope(Scope::root().join(n), p, vec![Arity::Len(2)]);
    let h3 = Handle::new_in_scope(Scope::root().join(n), p, vec![Arity::Len(1)]);
    assert!(h1.like(&h2));
    assert!(!h1.like(&h3));
    assert!(!h1.same(&h2));
    assert!(h1.module().same(&Scope::root().join(m)));
    assert_eq!(h1.name(), p);
    assert!(h1.head().same(&Handle::new_in_scope(Scope::root(), p, vec![Arity::Len(2)])));
    let mut h4 = h3.copy();
    h4.extend_arity(Arity::Len(2));
    assert_eq!(h4.arity(), &[Arity::Len(3)]);
    h4.extend_arity(Arity::Name(m));
    assert_eq!(h4.arity(), &[Arity::Len(3), Arity::Name(m)]);
    let op = Handle::binop(Scope::root().join(p));
    assert_eq!(op.arity(), &[Arity::Len(3)]);
    let empty = Handle::from_parts(Scope::root().join(p), vec![]);
    assert_eq!(empty.arity(), &[Arity::Len(0)]);
}

#[test]
fn identifiers_and_variables() {
    let x = Identifier::new(3);
    let w = Identifier::wildcard(3);
    assert_eq!(x.index(), 3);
    assert_eq!(x.kind(), IdentifierKind::Named);
    assert!(w.is_wildcard());
    assert!(!x.is_wildcard());
    assert!(x.lt(&w));
    let v = Variable::new_generationless(x);
    assert_eq!(v.generation(), None);
    let placed = v.set_current(Some(4));
    assert_eq!(placed.generation(), Some(4));
    assert_eq!(placed.set_current(Some(7)).generation(), Some(4));
    assert!(placed.lt(&v));
    assert!(Variable::new(w, 1).is_wildcard());
}

#[test]
fn literals_compare_by_value() {
    assert!(Literal::Rational(1, 2).same_value(&Literal::Rational(2, 4)));
    assert!(!Literal::Rational(1, 2).same_value(&Literal::Rational(1, 3)));
    assert!(Literal::Integer(5).same_value(&Literal::Integer(5)));
    assert!(!Literal::Integer(5).same_value(&Literal::Rational(5, 1)));
    assert!(Literal::String("a".to_string()).same_value(&Literal::String("a".to_string())));
}

#[test]
fn binding_set_and_get() {
    let mut binding = Binding::empty();
    let x = binding.fresh_variable();
    let y = binding.fresh_variable();
    assert_ne!(x, y);
    assert_eq!(binding.len(), 2);
    binding.set(y, Pattern::from_kind(PatternKind::Variable(x)));
    binding.set(x, integer(5));
    assert!(is_integer(&binding.get(y).unwrap(), 5));
    assert!(is_integer(&binding.get(x).unwrap(), 5));
    let unknown = Variable::new(Identifier::new(40), 0);
    assert!(binding.get(unknown).is_none());
}

#[test]
fn binding_generations() {
    let mut binding = Binding::empty();
    assert_eq!(binding.generation(), 0);
    binding.push_generation();
    assert_eq!(binding.generation(), 1);
    assert_eq!(binding.prev_generation(), 0);
    binding.push_generation();
    assert_eq!(binding.generation(), 2);
    let binding = binding.end_generation();
    assert_eq!(binding.generation(), 1);
}

#[test]
fn binding_new_binds_each_variable_to_itself() {
    let v = Variable::new_generationless(Identifier::new(0));
    let binding = Binding::new(&[v]);
    let placed = v.set_current(Some(0));
    match &*binding.get(placed).unwrap().kind {
        PatternKind::Variable(w) => assert_eq!(*w, placed),
        other => panic!("unexpected pattern {:?}", other),
    }
}

#[test]
fn apply_reads_unified_value() {
    let mut binding = Binding::empty();
    let x = binding.fresh_variable();
    let xp = Pattern::from_kind(PatternKind::Variable(x));
    let binding = unify_patterns(xp.copy(), integer(7), binding).unwrap();
    assert!(is_integer(&binding.apply(&xp).unwrap(), 7));
}

#[test]
fn apply_replaces_variables_in_lists() {
    let mut binding = Binding::empty();
    let x = binding.fresh_variable();
    let y = binding.fresh_variable();
    let list = Pattern::list(
        PatternList::from_vec(vec![Pattern::from_kind(PatternKind::Variable(x))]),
        Some(Pattern::from_kind(PatternKind::Variable(y))),
    );
    let full = Pattern::list(PatternList::from_vec(vec![integer(1), integer(2)]), None);
    let binding = unify_patterns(list.copy(), full, binding).unwrap();
    let applied = binding.apply(&list).unwrap();
    match &*applied.kind {
        PatternKind::List(items, None) => {
            assert_eq!(items.len(), 2);
            match items {
                PatternList::Cons(first, rest) => {
                    assert!(is_integer(first, 1));
                    match &**rest {
                        PatternList::Cons(second, _) => assert!(is_integer(second, 2)),
                        PatternList::Nil => panic!("list too short"),
                    }
                }
                PatternList::Nil => panic!("empty list"),
            }
        }
        other => panic!("unexpected pattern {:?}", other),
    }
}

#[test]
fn apply_rejects_unknown_variables() {
    let binding = Binding::empty();
    let stranger = Pattern::from_kind(PatternKind::Variable(Variable::new(Identifier::new(9), 0)));
    assert_eq!(binding.apply(&stranger).err(), Some(BindingError::IrrelevantVariable));
}

#[test]
fn apply_leaves_unbound_variables() {
    let mut binding = Binding::empty();
    let x = binding.fresh_variable();
    let xp = Pattern::from_kind(PatternKind::Variable(x));
    match &*binding.apply(&xp).unwrap().kind {
        PatternKind::Variable(v) => assert_eq!(*v, x),
        other => panic!("unexpected pattern {:?}", other),
    }
}

#[test]
fn start_generation_unifies_arguments() {
    let mut binding = Binding::empty();
    let x = binding.fresh_variable();
    let argument = Pattern::from_kind(PatternKind::Variable(x));
    let head_var = Variable::new_generationless(Identifier::new(0));
    let head = Pattern::from_kind(PatternKind::Variable(head_var));
    let binding = binding.start_generation(&[], &[integer(4)], &[head.copy()]).unwrap();
    assert_eq!(binding.generation(), 1);
    let placed = head_var.set_current(Some(1));
    assert!(is_integer(&binding.get(placed).unwrap(), 4));
    let binding = binding.end_generation();
    assert_eq!(binding.generation(), 0);
    let later = binding.start_generation(&[], &[argument.copy()], &[integer(5)]).unwrap();
    assert!(is_integer(&later.get(x).unwrap(), 5));
}

#[test]
fn start_generation_fails_on_mismatch() {
    let binding = Binding::empty();
    assert!(binding.start_generation(&[], &[integer(4)], &[integer(5)]).is_none());
}

#[test]
fn patterns_compare_structurally() {
    let mut atoms = Atomizer::new();
    let a = atoms.atomize_str("a");
    let one = Pattern::list(PatternList::from_vec(vec![integer(1)]), None);
    let also_one = Pattern::list(PatternList::from_vec(vec![integer(1)]), None);
    let two = Pattern::list(PatternList::from_vec(vec![integer(2)]), None);
    assert!(one.same(&also_one));
    assert!(!one.same(&two));
    let s1 = Pattern::from_kind(PatternKind::Struct(a, Some(one.copy())));
    let s2 = Pattern::from_kind(PatternKind::Struct(a, Some(also_one.copy())));
    assert!(s1.same(&s2));
    assert!(!s1.same(&one));
    let half = Pattern::from_kind(PatternKind::Literal(Literal::Rational(1, 2)));
    let two_quarters = Pattern::from_kind(PatternKind::Literal(Literal::Rational(2, 4)));
    assert!(half.same(&two_quarters));
    assert!(!integer(1).same(&integer(1).default_age(Some(3))));
}

#[test]
fn apply_reports_illegal_tail_and_exhaustion() {
    let mut binding = Binding::empty();
    let x = binding.fresh_variable();
    let xp = Pattern::from_kind(PatternKind::Variable(x));
    binding.set(x, integer(3));
    let list = Pattern::list(PatternList::from_vec(vec![integer(1)]), Some(xp.copy()));
    assert_eq!(binding.apply(&list).err(), Some(BindingError::IllegalTail));
    assert_eq!(binding.apply_with(&xp, 0).err(), Some(BindingError::Exhausted));
    assert!(is_integer(&binding.apply_with(&xp, 2).unwrap(), 3));
}

#[test]
fn fresh_variable_is_numbered_by_count() {
    let mut binding = Binding::empty();
    let x = binding.fresh_variable();
    let y = binding.fresh_variable();
    assert_eq!(x.identifier().index(), 0);
    assert_eq!(y.identifier().index(), 1);
    assert_eq!(x.identifier().kind(), IdentifierKind::Fresh);
    assert_eq!(binding.len(), 2);
}

#[test]
fn fresh_variable_avoids_a_variable_bound_by_hand() {
    let mut binding = Binding::empty();
    let taken = Variable::new(Identifier::fresh(1), 0);
    binding.set(taken, integer(5));
    assert_eq!(binding.len(), 1);
    let x = binding.fresh_variable();
    assert!(x != taken);
    assert_eq!(x.identifier().index(), 0);
    assert_eq!(binding.len(), 2);
    assert!(is_integer(&binding.get(taken).unwrap(), 5));
}

#[test]
fn more_fuel_does_not_change_an_application() {
    let atoms = Atomizer::new();
    let mut binding = Binding::empty();
    let x = binding.fresh_variable();
    let y = binding.fresh_variable();
    let items = PatternList::from_vec(vec![integer(1), Pattern::from_kind(PatternKind::Variable(y))]);
    binding.set(x, Pattern::list(items, None));
    binding.set(y, integer(2));
    let p = Pattern::from_kind(PatternKind::Variable(x));
    let full = binding.apply(&p).unwrap();
    assert_eq!(full.text(&atoms, None), "[1, 2]");
    assert_eq!(binding.apply_with(&p, 10).unwrap().text(&atoms, None), "[1, 2]");
    assert_eq!(binding.apply_with(&p, 4).unwrap().text(&atoms, None), "[1, 2]");
    assert!(matches!(binding.apply_with(&p, 3), Err(BindingError::Exhausted)));
}

#[test]
fn applying_twice_gives_the_same_term() {
    let atoms = Atomizer::new();
    let mut binding = Binding::empty();
    let x = binding.fresh_variable();
    let y = binding.fresh_variable();
    let z = binding.fresh_variable();
    let tail = Pattern::list(
        PatternList::from_vec(vec![integer(2)]),
        Some(Pattern::from_kind(PatternKind::Variable(z))),
    );
    binding.set(y, tail);
    let p = Pattern::list(
        PatternList::from_vec(vec![Pattern::from_kind(PatternKind::Variable(x)), integer(1)]),
        Some(Pattern::from_kind(PatternKind::Variable(y))),
    );
    let once = binding.apply(&p).unwrap();
    let twice = binding.apply(&once).unwrap();
    let once_text = once.text(&atoms, None);
    assert_eq!(twice.text(&atoms, None), once_text);
    match &*once.kind {
        PatternKind::List(items, Some(rest)) => {
            assert_eq!(items.len(), 3);
            assert!(rest.kind.is_variable());
        }
        other => panic!("unexpected pattern {:?}", other),
    }
}

#[test]
fn unified_variables_apply_to_the_same_variable() {
    let atoms = Atomizer::new();
    let mut binding = Binding::empty();
    let x = binding.fresh_variable();
    let y = binding.fresh_variable();
    let xp = Pattern::from_kind(PatternKind::Variable(x));
    let yp = Pattern::from_kind(PatternKind::Variable(y));
    let binding = unify_patterns(xp.copy(), yp.copy(), binding).unwrap();
    let from_x = binding.apply(&xp).unwrap();
    let from_y = binding.apply(&yp).unwrap();
    assert_eq!(from_x.text(&atoms, None), from_y.text(&atoms, None));
    assert!(from_x.kind.is_variable());
}

#[test]
fn variable_and_value_unify_either_way() {
    let mut binding = Binding::empty();
    let x = binding.fresh_variable();
    let xp = Pattern::from_kind(PatternKind::Variable(x));
    let left = unify_patterns(xp.copy(), integer(7), binding.copy()).unwrap();
    let right = unify_patterns(integer(7), xp.copy(), binding).unwrap();
    assert!(is_integer(&left.apply(&xp).unwrap(), 7));
    assert!(is_integer(&right.apply(&xp).unwrap(), 7));
    assert_eq!(left.len(), right.len());
}

fn var_pattern(v: Variable) -> Pattern {
    Pattern::from_kind(PatternKind::Variable(v))
}

fn list_of(items: Vec<Pattern>) -> Pattern {
    Pattern::list(PatternList::from_vec(items), None)
}

#[test]
fn variable_takes_a_value_holding_variables_but_only_once() {
    let atoms = Atomizer::new();
    let mut binding = Binding::empty();
    let x = binding.fresh_variable();
    let y = binding.fresh_variable();
    let value = list_of(vec![var_pattern(y), integer(1)]);
    let binding = unify_patterns(var_pattern(x), value.copy(), binding).unwrap();
    assert_eq!(
        binding.apply(&var_pattern(x)).unwrap().text(&atoms, None),
        binding.apply(&value).unwrap().text(&atoms, None)
    );
    let same = list_of(vec![integer(2), integer(1)]);
    let other = list_of(vec![integer(2), integer(2)]);
    assert!(unify_patterns(var_pattern(x), same.copy(), binding.copy()).is_some());
    assert!(unify_patterns(value.copy(), same.copy(), binding.copy()).is_some());
    assert!(unify_patterns(var_pattern(x), other.copy(), binding.copy()).is_none());
    assert!(unify_patterns(value.copy(), other.copy(), binding.copy()).is_none());
}

#[test]
fn variables_with_values_keep_them() {
    let atoms = Atomizer::new();
    let mut binding = Binding::empty();
    let x = binding.fresh_variable();
    let y = binding.fresh_variable();
    let z = binding.fresh_variable();
    let binding = unify_patterns(var_pattern(x), integer(4), binding).unwrap();
    let binding = unify_patterns(var_pattern(y), integer(4), binding).unwrap();
    assert!(unify_patterns(var_pattern(x), integer(5), binding.copy()).is_none());
    let after = unify_patterns(var_pattern(x), integer(4), binding.copy()).unwrap();
    assert_eq!(after.len(), binding.len());
    let joined = unify_patterns(var_pattern(x), var_pattern(y), binding.copy()).unwrap();
    assert!(is_integer(&joined.apply(&var_pattern(x)).unwrap(), 4));
    assert!(is_integer(&joined.apply(&var_pattern(y)).unwrap(), 4));
    let taken = unify_patterns(var_pattern(z), var_pattern(x), binding.copy()).unwrap();
    assert_eq!(taken.apply(&var_pattern(z)).unwrap().text(&atoms, None), "4");
    assert!(is_integer(&taken.apply(&var_pattern(x)).unwrap(), 4));
}

#[test]
fn literal_unifies_only_with_literals() {
    let mut atoms = Atomizer::new();
    let binding = Binding::empty();
    let s = Pattern::from_kind(PatternKind::Struct(atoms.atomize_str("one"), None));
    assert!(unify_patterns(integer(1), s, binding.copy()).is_none());
    assert!(unify_patterns(integer(1), list_of(vec![integer(1)]), binding.copy()).is_none());
    assert!(unify_patterns(integer(1), integer(1), binding).is_some());
}

#[test]
fn template_unifies_with_a_value_keeping_values_it_has() {
    let atoms = Atomizer::new();
    let mut binding = Binding::empty();
    let x = binding.fresh_variable();
    let y = binding.fresh_variable();
    let twice = list_of(vec![var_pattern(x), var_pattern(x)]);
    let after = unify_patterns(twice.copy(), list_of(vec![integer(1), integer(1)]), binding.copy()).unwrap();
    assert_eq!(after.apply(&twice).unwrap().text(&atoms, None), "[1, 1]");
    assert!(unify_patterns(twice.copy(), list_of(vec![integer(1), integer(2)]), binding.copy()).is_none());
    let binding = unify_patterns(var_pattern(x), integer(1), binding).unwrap();
    let pair = list_of(vec![var_pattern(x), var_pattern(y)]);
    let after = unify_patterns(pair.copy(), list_of(vec![integer(1), integer(2)]), binding.copy()).unwrap();
    assert_eq!(after.apply(&pair).unwrap().text(&atoms, None), "[1, 2]");
    assert!(is_integer(&after.apply(&var_pattern(x)).unwrap(), 1));
    assert!(unify_patterns(pair.copy(), list_of(vec![integer(2), integer(2)]), binding.copy()).is_none());
}

#[test]
fn value_unifies_with_a_template_on_either_side() {
    let atoms = Atomizer::new();
    let mut binding = Binding::empty();
    let x = binding.fresh_variable();
    let twice = list_of(vec![var_pattern(x), var_pattern(x)]);
    let value = list_of(vec![integer(3), integer(3)]);
    let left = unify_patterns(twice.copy(), value.copy(), binding.copy()).unwrap();
    let right = unify_patterns(value.copy(), twice.copy(), binding.copy()).unwrap();
    assert_eq!(left.apply(&twice).unwrap().text(&atoms, None), "[3, 3]");
    assert_eq!(right.apply(&twice).unwrap().text(&atoms, None), "[3, 3]");
    assert!(unify_patterns(list_of(vec![integer(3), integer(4)]), twice.copy(), binding).is_none());
}

#[test]
fn list_with_a_rest_takes_the_items_left_over() {
    let atoms = Atomizer::new();
    let mut binding = Binding::empty();
    let h = binding.fresh_variable();
    let t = binding.fresh_variable();
    let template = Pattern::list(PatternList::from_vec(vec![var_pattern(h)]), Some(var_pattern(t)));
    let value = list_of(vec![integer(1), integer(2), integer(3)]);
    let after = unify_patterns(template.copy(), value.copy(), binding.copy()).unwrap();
    assert_eq!(after.apply(&template).unwrap().text(&atoms, None), "[1, 2, 3]");
    assert_eq!(after.apply(&var_pattern(t)).unwrap().text(&atoms, None), "[2, 3]");
    let swapped = unify_patterns(value.copy(), template.copy(), binding.copy()).unwrap();
    assert_eq!(swapped.apply(&template).unwrap().text(&atoms, None), "[1, 2, 3]");
    assert!(unify_patterns(template.copy(), list_of(vec![]), binding).is_none());
}

#[test]
fn two_templates_apply_to_the_same_term() {
    let mut atoms = Atomizer::new();
    let mut binding = Binding::empty();
    let x = binding.fresh_variable();
    let y = binding.fresh_variable();
    let z = binding.fresh_variable();
    let w = binding.fresh_variable();
    let name = atoms.atomize_str("f");
    let left = Pattern::from_kind(PatternKind::Struct(name, Some(list_of(vec![var_pattern(x), list_of(vec![var_pattern(y), integer(2)])]))));
    let right = Pattern::from_kind(PatternKind::Struct(name, Some(list_of(vec![integer(1), list_of(vec![var_pattern(z), var_pattern(w)])]))));
    let after = unify_patterns(left.copy(), right.copy(), binding).unwrap();
    let l = after.apply(&left).unwrap().text(&atoms, None);
    let r = after.apply(&right).unwrap().text(&atoms, None);
    assert_eq!(l, r);
    assert!(l.starts_with("f [1, [$"));
    assert!(l.ends_with(", 2]]"));
}
