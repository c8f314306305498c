//! Literal values, which cannot be further pattern matched.
use vstd::prelude::*;

verus! {

/// A literal value, which cannot be further pattern matched.
#[derive(Debug)]
pub enum Literal {
    /// A single integer.
    Integer(i64),
    /// A fractional number: a numerator over a positive denominator.
    Rational(i64, u64),
    /// A string.
    String(String),
}

/// Whether two literals denote the same value: integers and strings when they are equal,
/// fractions when they are equal as numbers.
pub open spec fn literal_eq(a: Literal, b: Literal) -> bool {
    match (a, b) {
        (Literal::Integer(x), Literal::Integer(y)) => x == y,
        (Literal::Rational(n1, d1), Literal::Rational(n2, d2)) => n1 * d2 == n2 * d1,
        (Literal::String(s), Literal::String(t)) => s@ == t@,
        _ => false,
    }
}

impl Literal {
    /// A copy of this literal.
    pub fn copy(&self) -> (r: Literal)
        ensures
            r == *self,
    {
        match self {
            Literal::Integer(i) => Literal::Integer(*i),
            Literal::Rational(n, d) => Literal::Rational(*n, *d),
            Literal::String(s) => Literal::String(s.clone()),
        }
    }

    /// Whether two literals denote the same value; see [`literal_eq`].
    pub fn same_value(&self, other: &Literal) -> (r: bool)
        ensures
            r == literal_eq(*self, *other),
    {
        match (self, other) {
            (Literal::Integer(x), Literal::Integer(y)) => *x == *y,
            (Literal::Rational(n1, d1), Literal::Rational(n2, d2)) => {
                let x1: i128 = *n1 as i128;
                let y2: i128 = *d2 as i128;
                let x2: i128 = *n2 as i128;
                let y1: i128 = *d1 as i128;
                proof {
                    lemma_product_fits(x1, y2);
                    lemma_product_fits(x2, y1);
                }
                let a: i128 = x1 * y2;
                let b: i128 = x2 * y1;
                a == b
            },
            (Literal::String(s), Literal::String(t)) => string_eq(s, t),
            _ => false,
        }
    }
}

/// Whether two strings are equal.
fn string_eq(a: &String, b: &String) -> (r: bool)
    ensures
        r == (a@ == b@),
{
    a.eq(b)
}

proof fn lemma_product_fits(n: i128, d: i128)
    requires
        i64::MIN <= n <= i64::MAX,
        0 <= d <= u64::MAX,
    ensures
        i128::MIN <= n * d <= i128::MAX,
{
    assert(-0x8000_0000_0000_0000 * 0xffff_ffff_ffff_ffff <= n * d <= 0x7fff_ffff_ffff_ffff * 0xffff_ffff_ffff_ffff) by (nonlinear_arith)
        requires
            -0x8000_0000_0000_0000 <= n <= 0x7fff_ffff_ffff_ffff,
            0 <= d <= 0xffff_ffff_ffff_ffff,
    ;
}

/// Every literal denotes the same value as itself, and two literals denote the same value
/// in either order.
pub proof fn lemma_literal_eq_reflexive_symmetric(a: Literal, b: Literal)
    ensures
        literal_eq(a, a),
        literal_eq(a, b) ==> literal_eq(b, a),
{
    if let (Literal::Rational(n1, d1), Literal::Rational(n2, d2)) = (a, b) {
        assert(n1 * d2 == d2 * n1) by (nonlinear_arith);
        assert(n2 * d1 == d1 * n2) by (nonlinear_arith);
    }
    if let Literal::Rational(n, d) = a {
        assert(n * d == n * d);
    }
}

} // verus!
