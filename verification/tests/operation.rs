use lumber::arity::Arity;
use lumber::atom::Atomizer;
use lumber::context::{Context, ContextError};
use lumber::evaluate::Term;
use lumber::handle::Handle;
use lumber::literal::Literal;
use lumber::operation::{level_of, operation, Operator};
use lumber::pattern::{Pattern, PatternKind};
use lumber::scope::Scope;

const TOKENS: [&str; 17] = ["||", "&&", "|", "^", "&", "==", "!=", "<", ">", "<=", ">=", "+", "-", "*", "/", "%", "**"];

fn value(n: i64) -> Term {
    Term::Value(Pattern::from_kind(PatternKind::Literal(Literal::Integer(n))))
}

/// Each built-in operation answered by a predicate named by its token.
fn builtins(atoms: &mut Atomizer) -> Vec<(String, Handle)> {
    TOKENS
        .iter()
        .map(|t| {
            let name = atoms.atomize_str(t);
            (t.to_string(), Handle::new_in_scope(Scope::root(), name, vec![Arity::Len(3)]))
        })
        .collect()
}

fn op(token: &str) -> Operator {
    Operator { token: token.to_string(), scope: None }
}

/// The term written back with full parentheses, operators by their predicates' names.
fn shape(t: &Term, atoms: &Atomizer) -> String {
    match t {
        Term::Value(p) => match p.kind() {
            PatternKind::Literal(Literal::Integer(n)) => n.to_string(),
            _ => "?".to_string(),
        },
        Term::InfixOp(l, h, r) => format!("({} {} {})", shape(l, atoms), atoms.name(h.name()), shape(r, atoms)),
        Term::ListAggregation(..) => "[..]".to_string(),
    }
}

fn parse_ops(ops: Vec<Operator>) -> (Option<String>, Context) {
    let mut atoms = Atomizer::new();
    let table = builtins(&mut atoms);
    let mut context = Context::new();
    let operands = (0..=ops.len() as i64).map(|n| value(n + 1)).collect();
    let term = operation(&mut context, operands, ops, &table);
    (term.map(|t| shape(&t, &atoms)), context)
}

fn parse(tokens: &[&str]) -> Option<String> {
    parse_ops(tokens.iter().map(|t| op(t)).collect()).0
}

#[test]
fn single_operand_is_itself() {
    assert_eq!(parse(&[]), Some("1".to_string()));
}

#[test]
fn product_binds_tighter_than_sum() {
    assert_eq!(parse(&["+", "*"]), Some("(1 + (2 * 3))".to_string()));
    assert_eq!(parse(&["*", "+"]), Some("((1 * 2) + 3)".to_string()));
}

#[test]
fn same_level_groups_to_the_left() {
    assert_eq!(parse(&["-", "-"]), Some("((1 - 2) - 3)".to_string()));
    assert_eq!(parse(&["+", "-", "+"]), Some("(((1 + 2) - 3) + 4)".to_string()));
}

#[test]
fn power_groups_to_the_right() {
    assert_eq!(parse(&["**", "**"]), Some("(1 ** (2 ** 3))".to_string()));
    assert_eq!(parse(&["*", "**"]), Some("(1 * (2 ** 3))".to_string()));
}

#[test]
fn logic_binds_loosest() {
    assert_eq!(parse(&["==", "&&", "<"]), Some("((1 == 2) && (3 < 4))".to_string()));
    assert_eq!(parse(&["||", "&&"]), Some("(1 || (2 && 3))".to_string()));
    assert_eq!(parse(&["|", "^", "&"]), Some("(1 | (2 ^ (3 & 4)))".to_string()));
}

#[test]
fn scoped_operator_queries_its_predicate() {
    let mut atoms = Atomizer::new();
    let table = builtins(&mut atoms);
    let join = atoms.atomize_str("join");
    let scoped = Operator { token: "`join`".to_string(), scope: Some(Scope::root().join(join)) };
    let mut context = Context::new();
    let term = operation(&mut context, vec![value(1), value(2), value(3)], vec![op("+"), scoped], &table).unwrap();
    assert_eq!(shape(&term, &atoms), "(1 + (2 join 3))");
    assert!(context.errors().is_empty());
}

#[test]
fn unknown_operator_is_reported() {
    let (term, context) = parse_ops(vec![op("+"), op("@"), op("#")]);
    assert_eq!(term, None);
    let errors = context.errors();
    assert_eq!(errors.len(), 1);
    assert!(matches!(&errors[0].1, ContextError::UnrecognizedOperator(t) if t == "@"));
}

#[test]
fn operands_must_outnumber_operators_by_one() {
    let mut atoms = Atomizer::new();
    let table = builtins(&mut atoms);
    let mut context = Context::new();
    assert!(operation(&mut context, vec![value(1)], vec![op("+")], &table).is_none());
    assert!(context.errors().is_empty());
}

#[test]
fn operator_levels() {
    assert_eq!(level_of("||"), Some(0));
    assert_eq!(level_of("**"), Some(9));
    assert_eq!(level_of(">="), Some(6));
    assert_eq!(level_of("%"), Some(8));
    assert_eq!(level_of("=>"), None);
}
