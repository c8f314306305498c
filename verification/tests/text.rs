use lumber::arity::Arity;
use lumber::handle::Handle;
use lumber::scope::Scope;
use lumber::atom::Atomizer;
use lumber::binding::Binding;
use lumber::context::Context;
use lumber::identifier::Identifier;
use lumber::literal::Literal;
use lumber::pattern::{FieldList, Pattern, PatternKind, PatternList};
use lumber::variable::Variable;

fn lit(l: Literal) -> Pattern {
    Pattern::from_kind(PatternKind::Literal(l))
}

fn integer(n: i64) -> Pattern {
    lit(Literal::Integer(n))
}

fn list(items: Vec<Pattern>, tail: Option<Pattern>) -> Pattern {
    Pattern::list(PatternList::from_vec(items), tail)
}

#[test]
fn literals_are_written_plainly() {
    let atoms = Atomizer::new();
    assert_eq!(integer(42).text(&atoms, None), "42");
    assert_eq!(integer(-7).text(&atoms, None), "-7");
    assert_eq!(integer(i64::MIN).text(&atoms, None), "-9223372036854775808");
    assert_eq!(lit(Literal::Rational(-3, 4)).text(&atoms, None), "-3/4");
    assert_eq!(lit(Literal::String("a \"b\"".to_string())).text(&atoms, None), "\"a \\\"b\\\"\"");
}

#[test]
fn lists_are_written_with_their_rest() {
    let atoms = Atomizer::new();
    let mut binding = Binding::empty();
    let rest = Pattern::from_kind(PatternKind::Variable(binding.fresh_variable()));
    assert_eq!(list(vec![], None).text(&atoms, None), "[]");
    assert_eq!(list(vec![integer(1), integer(2)], None).text(&atoms, None), "[1, 2]");
    assert_eq!(list(vec![integer(1)], Some(rest)).text(&atoms, None), "[1, ..$0@0]");
}

#[test]
fn structures_and_records_are_written_with_names() {
    let mut atoms = Atomizer::new();
    let point = atoms.atomize_str("point");
    let x = atoms.atomize_str("x");
    let y = atoms.atomize_str("y");
    let fields = FieldList::Nil.insert(x, integer(1)).insert(y, integer(2));
    let record = Pattern::record(fields, None);
    assert_eq!(record.text(&atoms, None), "{ x: 1, y: 2 }");
    let named = Pattern::from_kind(PatternKind::Struct(point, Some(record)));
    assert_eq!(named.text(&atoms, None), "point { x: 1, y: 2 }");
    let wrapped = Pattern::from_kind(PatternKind::Struct(point, Some(integer(3))));
    assert_eq!(wrapped.text(&atoms, None), "point (3)");
    let bare = Pattern::from_kind(PatternKind::Struct(point, None));
    assert_eq!(bare.text(&atoms, None), "point");
    let unknown = Pattern::from_kind(PatternKind::Struct(point, None));
    assert_eq!(unknown.text(&Atomizer::new(), None), "#0");
}

#[test]
fn special_patterns_are_written_by_their_marks() {
    let atoms = Atomizer::new();
    assert_eq!(Pattern::from_kind(PatternKind::Bound).text(&atoms, None), "!");
    assert_eq!(Pattern::from_kind(PatternKind::Unbound).text(&atoms, None), "?");
    assert_eq!(Pattern::from_kind(PatternKind::Any(255)).text(&atoms, None), "[0xff]");
    let all = Pattern::from_kind(PatternKind::All(PatternList::from_vec(vec![integer(1), integer(2)])));
    assert_eq!(all.text(&atoms, None), "12");
}

#[test]
fn variables_are_written_by_name_and_generation() {
    let atoms = Atomizer::new();
    let mut context = Context::new();
    context.reset_environment();
    let x = context.get_variable("X");
    let named = Pattern::from_kind(PatternKind::Variable(Variable::new_generationless(x)));
    assert_eq!(named.text(&atoms, Some(&context)), "X@_");
    assert_eq!(named.text(&atoms, None), "$0@_");
    let fresh = Pattern::from_kind(PatternKind::Variable(Variable::new(Identifier::fresh(0), 3)));
    assert_eq!(fresh.text(&atoms, Some(&context)), "$0@3");
}

#[test]
fn scopes_handles_and_bindings_are_written_with_names() {
    let mut atoms = Atomizer::new();
    let a = atoms.atomize_str("a");
    let b = atoms.atomize_str("b");
    let k = atoms.atomize_str("k");
    let std = atoms.atomize_str("std");
    assert_eq!(Scope::root().text(&atoms), "~");
    assert_eq!(Scope::from_parts(None, &[a, b]).text(&atoms), "a::b");
    assert_eq!(Scope::from_parts(Some(std), &[a]).text(&atoms), "@std::a");
    let h = Handle::from_parts(Scope::from_parts(None, &[a, b]), vec![Arity::Len(2), Arity::Name(k)]);
    assert_eq!(h.text(&atoms), "a::b/2:k");
    assert_eq!(Literal::Rational(1, 2).text(), "1/2");
    let mut binding = Binding::empty();
    assert_eq!(binding.text(&atoms, None), "Binding {}");
    let x = binding.fresh_variable();
    assert_eq!(x.text(None), format!("${}@0", x.identifier().index()));
    binding.set(x, integer(3));
    assert_eq!(binding.text(&atoms, None), format!("Binding {{\n\t${}@0 (0) = 3\n}}", x.identifier().index()));
}
