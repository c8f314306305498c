//! Operator precedence: the term that a sequence of operands and infix operators stands
//! for.
//!
//! From loosest to tightest the operators bind as `||`; `&&`; `|`; `^`; `&`; `==` `!=`;
//! `<` `>` `<=` `>=`; `+` `-`; `*` `/` `%`; `**`; an operator that names a predicate of the
//! program by its scope binds tightest. All of them group to the left but `**`, which
//! groups to the right.
use crate::arity::Arity;
use crate::atom::str_equal;
use crate::context::{Context, ContextErrorView};
use crate::evaluate::Term;
use crate::handle::{Handle, HandleView};
use crate::scope::Scope;
use vstd::prelude::*;

verus! {

/// An infix operator as written: its token, and the scope it names when it stands for a
/// predicate of the program rather than a built-in operation.
#[derive(Debug)]
pub struct Operator {
    pub token: String,
    pub scope: Option<Scope>,
}

/// How tightly the operator written `token` binds, from 0 (loosest) to 9; `None` for a
/// token that is not a built-in operator.
pub open spec fn operator_level(token: Seq<char>) -> Option<nat> {
    if token == "||"@ {
        Some(0)
    } else if token == "&&"@ {
        Some(1)
    } else if token == "|"@ {
        Some(2)
    } else if token == "^"@ {
        Some(3)
    } else if token == "&"@ {
        Some(4)
    } else if token == "=="@ || token == "!="@ {
        Some(5)
    } else if token == "<"@ || token == ">"@ || token == "<="@ || token == ">="@ {
        Some(6)
    } else if token == "+"@ || token == "-"@ {
        Some(7)
    } else if token == "*"@ || token == "/"@ || token == "%"@ {
        Some(8)
    } else if token == "**"@ {
        Some(9)
    } else {
        None
    }
}

/// The level at which operators group to the right.
pub open spec fn right_level() -> nat {
    9
}

/// The level of an operator that names a predicate: tighter than every built-in one,
/// grouping to the left.
pub open spec fn scoped_level() -> nat {
    10
}

/// The handle of the built-in operation written `token`, as `builtins` gives it: the first
/// entry for that token.
pub open spec fn builtin_handle(builtins: Seq<(String, Handle)>, token: Seq<char>, j: int) -> Option<HandleView>
    decreases builtins.len() - j,
{
    if j < 0 || j >= builtins.len() {
        None
    } else if builtins[j].0@ == token {
        Some(builtins[j].1@)
    } else {
        builtin_handle(builtins, token, j + 1)
    }
}

/// The predicate that answers an operator: the binary operator of its scope, or the
/// built-in operation of its token; `None` when the operator is not recognized.
pub open spec fn operator_handle(op: Operator, builtins: Seq<(String, Handle)>) -> Option<HandleView> {
    match op.scope {
        Some(s) => Some(HandleView { scope: s@, arity: seq![Arity::Len(3)] }),
        None => if operator_level(op.token@) is Some {
            builtin_handle(builtins, op.token@, 0)
        } else {
            None
        },
    }
}

/// How tightly a recognized operator binds.
pub open spec fn op_level(op: Operator) -> nat {
    match op.scope {
        Some(_) => scoped_level(),
        None => operator_level(op.token@).unwrap(),
    }
}

/// The place of the first operator from the `i`-th on that is not recognized.
pub open spec fn first_unrecognized(ops: Seq<Operator>, builtins: Seq<(String, Handle)>, i: int) -> Option<int>
    decreases ops.len() - i,
{
    if i < 0 || i >= ops.len() {
        None
    } else if operator_handle(ops[i], builtins) is None {
        Some(i)
    } else {
        first_unrecognized(ops, builtins, i + 1)
    }
}

/// The loosest level among the first `n` levels.
pub open spec fn min_level(levels: Seq<nat>, n: int) -> nat
    decreases n,
{
    if n <= 1 {
        levels[0]
    } else {
        let m = min_level(levels, n - 1);
        if levels[n - 1] < m {
            levels[n - 1]
        } else {
            m
        }
    }
}

/// The first place from `i` on of level `m`; the length when there is none.
pub open spec fn first_at(levels: Seq<nat>, m: nat, i: int) -> int
    decreases levels.len() - i,
{
    if i < 0 || i >= levels.len() {
        levels.len() as int
    } else if levels[i] == m {
        i
    } else {
        first_at(levels, m, i + 1)
    }
}

/// The last place before `i` of level `m`; 0 when there is none.
pub open spec fn last_at(levels: Seq<nat>, m: nat, i: int) -> int
    decreases i,
{
    if i <= 0 {
        0
    } else if levels[i - 1] == m {
        i - 1
    } else {
        last_at(levels, m, i - 1)
    }
}

/// The place of the operator applied last: one of the loosest level, the rightmost when
/// its level groups to the left and the leftmost when it groups to the right.
pub open spec fn split_point(levels: Seq<nat>) -> int {
    let m = min_level(levels, levels.len() as int);
    let k = if m == right_level() {
        first_at(levels, m, 0)
    } else {
        last_at(levels, m, levels.len() as int)
    };
    if 0 <= k < levels.len() {
        k
    } else {
        0
    }
}

/// The term of the operands `operands` joined by operators answered by `handles`, of the
/// levels `levels`, the `i`-th operator standing between the `i`-th and the next operand.
pub open spec fn climb(operands: Seq<Term>, handles: Seq<Handle>, levels: Seq<nat>) -> Term
    decreases levels.len(),
{
    if levels.len() == 0 {
        operands[0]
    } else {
        let k = split_point(levels);
        Term::InfixOp(
            Box::new(climb(operands.subrange(0, k + 1), handles.subrange(0, k), levels.subrange(0, k))),
            handles[k],
            Box::new(climb(
                operands.subrange(k + 1, operands.len() as int),
                handles.subrange(k + 1, handles.len() as int),
                levels.subrange(k + 1, levels.len() as int),
            )),
        )
    }
}

/// The levels of a sequence of recognized operators.
pub open spec fn op_levels(ops: Seq<Operator>) -> Seq<nat> {
    ops.map_values(|op: Operator| op_level(op))
}

/// Whether `t` is the term of `operands` joined by `ops`: the term that [`climb`] builds
/// with a handle for each operator that stands for the predicate answering it.
pub open spec fn operation_term(t: Term, operands: Seq<Term>, ops: Seq<Operator>, builtins: Seq<(String, Handle)>) -> bool {
    exists|hs: Seq<Handle>|
        hs.len() == ops.len()
        && (forall|i: int| 0 <= i < ops.len() ==> Some((#[trigger] hs[i])@) == operator_handle(ops[i], builtins))
        && t == climb(operands, hs, op_levels(ops))
}

/// How tightly the operator written `token` binds; see [`operator_level`].
pub fn level_of(token: &str) -> (r: Option<u8>)
    ensures
        match r {
            Some(l) => operator_level(token@) == Some(l as nat),
            None => operator_level(token@) is None,
        },
{
    if str_equal(token, "||") {
        Some(0)
    } else if str_equal(token, "&&") {
        Some(1)
    } else if str_equal(token, "|") {
        Some(2)
    } else if str_equal(token, "^") {
        Some(3)
    } else if str_equal(token, "&") {
        Some(4)
    } else if str_equal(token, "==") || str_equal(token, "!=") {
        Some(5)
    } else if str_equal(token, "<") || str_equal(token, ">") || str_equal(token, "<=") || str_equal(token, ">=") {
        Some(6)
    } else if str_equal(token, "+") || str_equal(token, "-") {
        Some(7)
    } else if str_equal(token, "*") || str_equal(token, "/") || str_equal(token, "%") {
        Some(8)
    } else if str_equal(token, "**") {
        Some(9)
    } else {
        None
    }
}

/// The handle of the built-in operation written `token`; see [`builtin_handle`].
fn find_builtin(builtins: &Vec<(String, Handle)>, token: &str) -> (r: Option<Handle>)
    ensures
        match r {
            Some(h) => builtin_handle(builtins@, token@, 0) == Some(h@),
            None => builtin_handle(builtins@, token@, 0) is None,
        },
{
    let mut j: usize = 0;
    while j < builtins.len()
        invariant
            j <= builtins.len(),
            builtin_handle(builtins@, token@, 0) == builtin_handle(builtins@, token@, j as int),
        decreases builtins.len() - j,
    {
        if str_equal(builtins[j].0.as_str(), token) {
            return Some(builtins[j].1.copy());
        }
        j = j + 1;
    }
    None
}

/// The predicate and level of an operator; `None` when it is not recognized.
fn resolve_operator(op: &Operator, builtins: &Vec<(String, Handle)>) -> (r: Option<(Handle, u8)>)
    ensures
        match r {
            Some((h, l)) => operator_handle(*op, builtins@) == Some(h@) && l as nat == op_level(*op),
            None => operator_handle(*op, builtins@) is None,
        },
{
    match &op.scope {
        Some(s) => Some((Handle::binop(s.copy()), 10)),
        None => match level_of(op.token.as_str()) {
            None => None,
            Some(l) => match find_builtin(builtins, op.token.as_str()) {
                None => None,
                Some(h) => Some((h, l)),
            },
        },
    }
}

/// The level of the `j`-th operator.
fn level_at(levels: &Vec<u8>, j: usize) -> (r: u8)
    requires
        j < levels.len(),
    ensures
        r == levels@[j as int],
{
    levels[j]
}

/// The levels of a vector of levels, as numbers.
pub open spec fn level_nats(levels: Seq<u8>) -> Seq<nat> {
    levels.map_values(|l: u8| l as nat)
}

/// The place of the operator applied last; see [`split_point`].
fn split_exec(levels: &Vec<u8>) -> (r: usize)
    requires
        levels.len() > 0,
    ensures
        r as int == split_point(level_nats(levels@)),
{
    let ghost ls = level_nats(levels@);
    let n = levels.len();
    let mut m = levels[0];
    let mut i: usize = 1;
    while i < n
        invariant
            1 <= i <= n,
            n == levels.len(),
            ls == level_nats(levels@),
            m as nat == min_level(ls, i as int),
        decreases n - i,
    {
        let l = levels[i];
        if l < m {
            m = l;
        }
        i = i + 1;
    }
    let k = if m == 9 {
        let mut j: usize = 0;
        while j < n && level_at(levels, j) != m
            invariant
                j <= n,
                n == levels.len(),
                ls == level_nats(levels@),
                first_at(ls, m as nat, 0) == first_at(ls, m as nat, j as int),
            decreases n - j,
        {
            j = j + 1;
        }
        j
    } else {
        let mut j: usize = n;
        while j > 0 && level_at(levels, j - 1) != m
            invariant
                j <= n,
                n == levels.len(),
                ls == level_nats(levels@),
                last_at(ls, m as nat, n as int) == last_at(ls, m as nat, j as int),
            decreases j,
        {
            j = j - 1;
        }
        if j == 0 {
            0
        } else {
            j - 1
        }
    };
    if k < n {
        k
    } else {
        0
    }
}

/// The term of `operands` joined by operators answered by `handles`; see [`climb`].
fn climb_exec(operands: Vec<Term>, handles: Vec<Handle>, levels: Vec<u8>) -> (r: Term)
    requires
        operands.len() == levels.len() + 1,
        handles.len() == levels.len(),
    ensures
        r == climb(operands@, handles@, level_nats(levels@)),
    decreases levels.len(),
{
    let mut operands = operands;
    let mut handles = handles;
    let mut levels = levels;
    if levels.len() == 0 {
        return operands.pop().unwrap();
    }
    let ghost all_levels = levels@;
    let ghost all_handles = handles@;
    let k = split_exec(&levels);
    let right_operands = operands.split_off(k + 1);
    let right_handles = handles.split_off(k + 1);
    let right_levels = levels.split_off(k + 1);
    let h = handles.pop().unwrap();
    let _ = levels.pop();
    proof {
        assert(levels@ =~= all_levels.subrange(0, k as int));
        assert(handles@ =~= all_handles.subrange(0, k as int));
        assert(level_nats(levels@) =~= level_nats(all_levels).subrange(0, k as int));
        assert(level_nats(right_levels@) =~= level_nats(all_levels).subrange(k + 1, all_levels.len() as int));
    }
    let left = climb_exec(operands, handles, levels);
    let right = climb_exec(right_operands, right_handles, right_levels);
    Term::InfixOp(Box::new(left), h, Box::new(right))
}

/// The term that `operands` joined by the infix operators `operators` stands for, each
/// operator answered by a query of its predicate (see [`operator_handle`], with the
/// built-in operations' predicates in `builtins`) and bound as [`op_level`] says. `None`
/// when there is not one more operand than operators; when an operator is not recognized,
/// the first such is reported in `context`, and `None` is given.
pub fn operation(context: &mut Context, operands: Vec<Term>, operators: Vec<Operator>, builtins: &Vec<(String, Handle)>) -> (r: Option<Term>)
    ensures
        operands@.len() != operators@.len() + 1 ==> r is None && final(context)@ == old(context)@,
        operands@.len() == operators@.len() + 1 ==> match first_unrecognized(operators@, builtins@, 0) {
            Some(i) => r is None && final(context)@ == old(context)@.report(ContextErrorView::UnrecognizedOperator(operators@[i].token@)),
            None => final(context)@ == old(context)@ && (r matches Some(t) && operation_term(t, operands@, operators@, builtins@)),
        },
{
    if operands.len() == 0 || operands.len() - 1 != operators.len() {
        return None;
    }
    let mut handles: Vec<Handle> = Vec::new();
    let mut levels: Vec<u8> = Vec::new();
    let mut i: usize = 0;
    while i < operators.len()
        invariant
            i <= operators.len(),
            operands@.len() == operators@.len() + 1,
            handles.len() == i,
            levels.len() == i,
            first_unrecognized(operators@, builtins@, 0) == first_unrecognized(operators@, builtins@, i as int),
            forall|j: int| 0 <= j < i ==> Some((#[trigger] handles@[j])@) == operator_handle(operators@[j], builtins@),
            forall|j: int| 0 <= j < i ==> (#[trigger] levels@[j]) as nat == op_level(operators@[j]),
            *context == *old(context),
        decreases operators.len() - i,
    {
        match resolve_operator(&operators[i], builtins) {
            None => {
                context.error_unrecognized_operator(operators[i].token.as_str());
                return None;
            },
            Some((h, l)) => {
                handles.push(h);
                levels.push(l);
            },
        }
        i = i + 1;
    }
    let ghost hs = handles@;
    proof {
        assert(level_nats(levels@) =~= op_levels(operators@));
    }
    let t = climb_exec(operands, handles, levels);
    proof {
        assert(hs.len() == operators@.len());
        assert(forall|j: int| 0 <= j < operators@.len() ==> Some((#[trigger] hs[j])@) == operator_handle(operators@[j], builtins@));
    }
    Some(t)
}

/// The built-in operators from loosest to tightest: `||`; `&&`; `|`; `^`; `&`; `==` and
/// `!=`; `<`, `>`, `<=` and `>=`; `+` and `-`; `*`, `/` and `%`; `**`, the one level that
/// groups to the right; and an operator that names a predicate binds tighter than all of
/// them.
pub proof fn lemma_operator_precedence()
    ensures
        operator_level("||"@) is Some,
        operator_level("&&"@) is Some,
        operator_level("|"@) is Some,
        operator_level("^"@) is Some,
        operator_level("&"@) is Some,
        operator_level("=="@) is Some,
        operator_level("<"@) is Some,
        operator_level("+"@) is Some,
        operator_level("*"@) is Some,
        operator_level("**"@) is Some,
        operator_level("!="@) == operator_level("=="@),
        operator_level(">"@) == operator_level("<"@),
        operator_level("<="@) == operator_level("<"@),
        operator_level(">="@) == operator_level("<"@),
        operator_level("-"@) == operator_level("+"@),
        operator_level("/"@) == operator_level("*"@),
        operator_level("%"@) == operator_level("*"@),
        operator_level("||"@).unwrap() < operator_level("&&"@).unwrap(),
        operator_level("&&"@).unwrap() < operator_level("|"@).unwrap(),
        operator_level("|"@).unwrap() < operator_level("^"@).unwrap(),
        operator_level("^"@).unwrap() < operator_level("&"@).unwrap(),
        operator_level("&"@).unwrap() < operator_level("=="@).unwrap(),
        operator_level("=="@).unwrap() < operator_level("<"@).unwrap(),
        operator_level("<"@).unwrap() < operator_level("+"@).unwrap(),
        operator_level("+"@).unwrap() < operator_level("*"@).unwrap(),
        operator_level("*"@).unwrap() < operator_level("**"@).unwrap(),
        operator_level("**"@).unwrap() == right_level(),
        right_level() < scoped_level(),
{
    reveal_strlit("||");
    reveal_strlit("&&");
    reveal_strlit("|");
    reveal_strlit("^");
    reveal_strlit("&");
    reveal_strlit("==");
    reveal_strlit("!=");
    reveal_strlit("<");
    reveal_strlit(">");
    reveal_strlit("<=");
    reveal_strlit(">=");
    reveal_strlit("+");
    reveal_strlit("-");
    reveal_strlit("*");
    reveal_strlit("/");
    reveal_strlit("%");
    reveal_strlit("**");
    assert("||"@[0] == '|');
    assert("||"@[1] == '|');
    assert("&&"@[0] == '&');
    assert("&&"@[1] == '&');
    assert("|"@[0] == '|');
    assert("^"@[0] == '^');
    assert("&"@[0] == '&');
    assert("=="@[0] == '=');
    assert("=="@[1] == '=');
    assert("!="@[0] == '!');
    assert("!="@[1] == '=');
    assert("<"@[0] == '<');
    assert(">"@[0] == '>');
    assert("<="@[0] == '<');
    assert("<="@[1] == '=');
    assert(">="@[0] == '>');
    assert(">="@[1] == '=');
    assert("+"@[0] == '+');
    assert("-"@[0] == '-');
    assert("*"@[0] == '*');
    assert("/"@[0] == '/');
    assert("%"@[0] == '%');
    assert("**"@[0] == '*');
    assert("**"@[1] == '*');
    assert("||"@.len() == 2);
    assert("&&"@.len() == 2);
    assert("|"@.len() == 1);
    assert("^"@.len() == 1);
    assert("&"@.len() == 1);
    assert("=="@.len() == 2);
    assert("!="@.len() == 2);
    assert("<"@.len() == 1);
    assert(">"@.len() == 1);
    assert("<="@.len() == 2);
    assert(">="@.len() == 2);
    assert("+"@.len() == 1);
    assert("-"@.len() == 1);
    assert("*"@.len() == 1);
    assert("/"@.len() == 1);
    assert("%"@.len() == 1);
    assert("**"@.len() == 2);
}

/// One operand alone is its own term; two operands joined by one operator are that
/// operator applied to them.
proof fn lemma_climb_short(a: Term, b: Term, h: Handle, l: nat)
    ensures
        climb(seq![a], Seq::<Handle>::empty(), Seq::<nat>::empty()) == a,
        climb(seq![a, b], seq![h], seq![l]) == Term::InfixOp(Box::new(a), h, Box::new(b)),
{
    let levels = seq![l];
    assert(min_level(levels, 1) == l);
    assert(first_at(levels, l, 0) == 0);
    assert(last_at(levels, l, 1) == 0);
    assert(split_point(levels) == 0);
    assert(seq![a, b].subrange(0, 1) =~= seq![a]);
    assert(seq![a, b].subrange(1, 2) =~= seq![b]);
    assert(seq![h].subrange(0, 0) =~= Seq::<Handle>::empty());
    assert(seq![h].subrange(1, 1) =~= Seq::<Handle>::empty());
    assert(levels.subrange(0, 0) =~= Seq::<nat>::empty());
    assert(levels.subrange(1, 1) =~= Seq::<nat>::empty());
    assert(climb(seq![a], Seq::<Handle>::empty(), Seq::<nat>::empty()) == a);
    assert(climb(seq![b], Seq::<Handle>::empty(), Seq::<nat>::empty()) == b);
    assert(climb(seq![a, b], seq![h], levels) == Term::InfixOp(Box::new(a), h, Box::new(b)));
}

/// Of three operands joined by two operators, the tighter operator applies first; at one
/// level, the left one applies first, but at the level that groups to the right.
pub proof fn lemma_climb_two_operators(a: Term, b: Term, c: Term, h1: Handle, h2: Handle, l1: nat, l2: nat)
    ensures
        climb(seq![a, b, c], seq![h1, h2], seq![l1, l2]) == if l1 < l2 || (l1 == l2 && l1 == right_level()) {
            Term::InfixOp(Box::new(a), h1, Box::new(Term::InfixOp(Box::new(b), h2, Box::new(c))))
        } else {
            Term::InfixOp(Box::new(Term::InfixOp(Box::new(a), h1, Box::new(b))), h2, Box::new(c))
        },
{
    let operands = seq![a, b, c];
    let handles = seq![h1, h2];
    let levels = seq![l1, l2];
    lemma_climb_short(a, b, h1, l1);
    lemma_climb_short(b, c, h2, l2);
    lemma_climb_short(c, c, h2, l2);
    let m = min_level(levels, 2);
    assert(min_level(levels, 1) == l1);
    assert(m == if l2 < l1 { l2 } else { l1 });
    assert(first_at(levels, m, 2) == 2);
    assert(last_at(levels, m, 0) == 0);
    if l1 < l2 || (l1 == l2 && l1 == right_level()) {
        if m == right_level() {
            assert(first_at(levels, m, 0) == 0);
        } else {
            assert(last_at(levels, m, 1) == 0);
            assert(last_at(levels, m, 2) == 0);
        }
        assert(split_point(levels) == 0);
        assert(operands.subrange(0, 1) =~= seq![a]);
        assert(operands.subrange(1, 3) =~= seq![b, c]);
        assert(handles.subrange(0, 0) =~= Seq::<Handle>::empty());
        assert(handles.subrange(1, 2) =~= seq![h2]);
        assert(levels.subrange(0, 0) =~= Seq::<nat>::empty());
        assert(levels.subrange(1, 2) =~= seq![l2]);
    } else {
        if m == right_level() {
            assert(first_at(levels, m, 1) == 1);
            assert(first_at(levels, m, 0) == 1);
        } else {
            assert(last_at(levels, m, 2) == 1);
        }
        assert(split_point(levels) == 1);
        assert(operands.subrange(0, 2) =~= seq![a, b]);
        assert(operands.subrange(2, 3) =~= seq![c]);
        assert(handles.subrange(0, 1) =~= seq![h1]);
        assert(handles.subrange(2, 2) =~= Seq::<Handle>::empty());
        assert(levels.subrange(0, 1) =~= seq![l1]);
        assert(levels.subrange(2, 2) =~= Seq::<nat>::empty());
    }
}

/// The term of three operands joined by two recognized operators: the operator of the
/// tighter level applies first; at one level, the left one applies first, but at the
/// level that groups to the right.
pub proof fn lemma_two_operators_group_by_level(t: Term, x: Term, y: Term, z: Term, op1: Operator, op2: Operator, builtins: Seq<(String, Handle)>)
    requires
        operation_term(t, seq![x, y, z], seq![op1, op2], builtins),
    ensures
        exists|h1: Handle, h2: Handle|
            #![trigger h1@, h2@]
            Some(h1@) == operator_handle(op1, builtins) && Some(h2@) == operator_handle(op2, builtins) && t == if op_level(op1) < op_level(op2) || (op_level(op1) == op_level(op2) && op_level(op1) == right_level()) {
                Term::InfixOp(Box::new(x), h1, Box::new(Term::InfixOp(Box::new(y), h2, Box::new(z))))
            } else {
                Term::InfixOp(Box::new(Term::InfixOp(Box::new(x), h1, Box::new(y))), h2, Box::new(z))
            },
{
    let ops = seq![op1, op2];
    let hs = choose|hs: Seq<Handle>|
        hs.len() == ops.len()
        && (forall|i: int| 0 <= i < ops.len() ==> Some((#[trigger] hs[i])@) == operator_handle(ops[i], builtins))
        && t == climb(seq![x, y, z], hs, op_levels(ops));
    assert(Some(hs[0]@) == operator_handle(ops[0], builtins));
    assert(Some(hs[1]@) == operator_handle(ops[1], builtins));
    assert(hs =~= seq![hs[0], hs[1]]);
    assert(op_levels(ops) =~= seq![op_level(op1), op_level(op2)]);
    lemma_climb_two_operators(x, y, z, hs[0], hs[1], op_level(op1), op_level(op2));
    let h1 = hs[0];
    let h2 = hs[1];
    assert(Some(h1@) == operator_handle(op1, builtins) && Some(h2@) == operator_handle(op2, builtins));
    assert(t == if op_level(op1) < op_level(op2) || (op_level(op1) == op_level(op2) && op_level(op1) == right_level()) {
        Term::InfixOp(Box::new(x), h1, Box::new(Term::InfixOp(Box::new(y), h2, Box::new(z))))
    } else {
        Term::InfixOp(Box::new(Term::InfixOp(Box::new(x), h1, Box::new(y))), h2, Box::new(z))
    });
}

/// `x + y * z` is `x + (y * z)`: after an additive operator (`+`, `-`), a multiplicative
/// one (`*`, `/`, `%`) applies first.
pub proof fn lemma_multiplicative_binds_tighter_on_the_right(t: Term, x: Term, y: Term, z: Term, op1: Operator, op2: Operator, builtins: Seq<(String, Handle)>)
    requires
        op1.scope is None,
        op2.scope is None,
        op1.token@ == "+"@ || op1.token@ == "-"@,
        op2.token@ == "*"@ || op2.token@ == "/"@ || op2.token@ == "%"@,
        operation_term(t, seq![x, y, z], seq![op1, op2], builtins),
    ensures
        exists|h1: Handle, h2: Handle|
            #![trigger h1@, h2@]
            Some(h1@) == builtin_handle(builtins, op1.token@, 0) && Some(h2@) == builtin_handle(builtins, op2.token@, 0)
                && t == Term::InfixOp(Box::new(x), h1, Box::new(Term::InfixOp(Box::new(y), h2, Box::new(z)))),
{
    lemma_operator_precedence();
    lemma_two_operators_group_by_level(t, x, y, z, op1, op2, builtins);
}

/// `x * y + z` is `(x * y) + z`: before an additive operator (`+`, `-`), a multiplicative
/// one (`*`, `/`, `%`) applies first.
pub proof fn lemma_multiplicative_binds_tighter_on_the_left(t: Term, x: Term, y: Term, z: Term, op1: Operator, op2: Operator, builtins: Seq<(String, Handle)>)
    requires
        op1.scope is None,
        op2.scope is None,
        op1.token@ == "*"@ || op1.token@ == "/"@ || op1.token@ == "%"@,
        op2.token@ == "+"@ || op2.token@ == "-"@,
        operation_term(t, seq![x, y, z], seq![op1, op2], builtins),
    ensures
        exists|h1: Handle, h2: Handle|
            #![trigger h1@, h2@]
            Some(h1@) == builtin_handle(builtins, op1.token@, 0) && Some(h2@) == builtin_handle(builtins, op2.token@, 0)
                && t == Term::InfixOp(Box::new(Term::InfixOp(Box::new(x), h1, Box::new(y))), h2, Box::new(z)),
{
    lemma_operator_precedence();
    lemma_two_operators_group_by_level(t, x, y, z, op1, op2, builtins);
}

/// `x - y + z` is `(x - y) + z`: additive operators group to the left.
pub proof fn lemma_additive_operators_group_left(t: Term, x: Term, y: Term, z: Term, op1: Operator, op2: Operator, builtins: Seq<(String, Handle)>)
    requires
        op1.scope is None,
        op2.scope is None,
        op1.token@ == "+"@ || op1.token@ == "-"@,
        op2.token@ == "+"@ || op2.token@ == "-"@,
        operation_term(t, seq![x, y, z], seq![op1, op2], builtins),
    ensures
        exists|h1: Handle, h2: Handle|
            #![trigger h1@, h2@]
            Some(h1@) == builtin_handle(builtins, op1.token@, 0) && Some(h2@) == builtin_handle(builtins, op2.token@, 0)
                && t == Term::InfixOp(Box::new(Term::InfixOp(Box::new(x), h1, Box::new(y))), h2, Box::new(z)),
{
    lemma_operator_precedence();
    lemma_two_operators_group_by_level(t, x, y, z, op1, op2, builtins);
}

/// `x / y * z` is `(x / y) * z`: multiplicative operators group to the left.
pub proof fn lemma_multiplicative_operators_group_left(t: Term, x: Term, y: Term, z: Term, op1: Operator, op2: Operator, builtins: Seq<(String, Handle)>)
    requires
        op1.scope is None,
        op2.scope is None,
        op1.token@ == "*"@ || op1.token@ == "/"@ || op1.token@ == "%"@,
        op2.token@ == "*"@ || op2.token@ == "/"@ || op2.token@ == "%"@,
        operation_term(t, seq![x, y, z], seq![op1, op2], builtins),
    ensures
        exists|h1: Handle, h2: Handle|
            #![trigger h1@, h2@]
            Some(h1@) == builtin_handle(builtins, op1.token@, 0) && Some(h2@) == builtin_handle(builtins, op2.token@, 0)
                && t == Term::InfixOp(Box::new(Term::InfixOp(Box::new(x), h1, Box::new(y))), h2, Box::new(z)),
{
    lemma_operator_precedence();
    lemma_two_operators_group_by_level(t, x, y, z, op1, op2, builtins);
}

/// `x ** y ** z` is `x ** (y ** z)`: `**` groups to the right.
pub proof fn lemma_power_groups_right(t: Term, x: Term, y: Term, z: Term, op1: Operator, op2: Operator, builtins: Seq<(String, Handle)>)
    requires
        op1.scope is None,
        op2.scope is None,
        op1.token@ == "**"@,
        op2.token@ == "**"@,
        operation_term(t, seq![x, y, z], seq![op1, op2], builtins),
    ensures
        exists|h1: Handle, h2: Handle|
            #![trigger h1@, h2@]
            Some(h1@) == builtin_handle(builtins, op1.token@, 0) && Some(h2@) == builtin_handle(builtins, op2.token@, 0)
                && t == Term::InfixOp(Box::new(x), h1, Box::new(Term::InfixOp(Box::new(y), h2, Box::new(z)))),
{
    lemma_operator_precedence();
    lemma_two_operators_group_by_level(t, x, y, z, op1, op2, builtins);
}

} // verus!
