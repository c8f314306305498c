//! The arity portion of a predicate handle.
use crate::atom::{Atom, Atomizer, well_formed_atom_source, atom_name_of_source};
use vstd::prelude::*;

verus! {

/// The arity portion of a predicate handle.
#[derive(Clone, Copy, PartialEq, Eq, Structural, Hash, Debug)]
pub enum Arity {
    /// Number of consecutive unnamed arguments.
    Len(u64),
    /// A single named argument.
    Name(Atom),
}

/// Whether `c` is a decimal digit.
pub open spec fn is_digit(c: char) -> bool {
    '0' <= c && c <= '9'
}

/// Whether `s` is a non-empty string of decimal digits.
pub open spec fn is_decimal(s: Seq<char>) -> bool {
    s.len() > 0 && forall|i: int| 0 <= i < s.len() ==> is_digit(#[trigger] s[i])
}

/// The value of the digit `c`.
pub open spec fn digit_value(c: char) -> int {
    (c as int) - ('0' as int)
}

/// The number that a string of decimal digits denotes.
pub open spec fn decimal_value(s: Seq<char>) -> int
    decreases s.len(),
{
    if s.len() == 0 {
        0
    } else {
        decimal_value(s.drop_last()) * 10 + digit_value(s.last())
    }
}

proof fn lemma_decimal_value_nonneg(s: Seq<char>)
    requires
        forall|i: int| 0 <= i < s.len() ==> is_digit(#[trigger] s[i]),
    ensures
        decimal_value(s) >= 0,
    decreases s.len(),
{
    if s.len() > 0 {
        assert forall|i: int| 0 <= i < s.drop_last().len() implies is_digit(#[trigger] s.drop_last()[i]) by {
            assert(s.drop_last()[i] == s[i]);
        }
        lemma_decimal_value_nonneg(s.drop_last());
        assert(is_digit(s[s.len() - 1]));
    }
}

/// Parses a string of decimal digits, as written for the length of an arity.
///
/// Returns `None` when `text` is not a non-empty string of decimal digits, or when the
/// number it denotes does not fit in a `u64`.
pub fn parse_decimal(text: &str) -> (r: Option<u64>)
    ensures
        match r {
            Some(n) => is_decimal(text@) && n == decimal_value(text@),
            None => !is_decimal(text@) || decimal_value(text@) > u64::MAX,
        },
{
    let len = text.unicode_len();
    if len == 0 {
        return None;
    }
    let mut value: u64 = 0;
    let mut i: usize = 0;
    let mut overflow = false;
    while i < len
        invariant
            len == text@.len(),
            0 <= i <= len,
            forall|j: int| 0 <= j < i ==> is_digit(#[trigger] text@[j]),
            !overflow ==> value == decimal_value(text@.subrange(0, i as int)),
            overflow ==> decimal_value(text@.subrange(0, i as int)) > u64::MAX,
        decreases len - i,
    {
        let c = text.get_char(i);
        if c < '0' || c > '9' {
            return None;
        }
        let d = (c as u64) - ('0' as u64);
        proof {
            let prefix = text@.subrange(0, i as int);
            let next = text@.subrange(0, i + 1);
            assert(next.drop_last() =~= prefix);
            assert(next.last() == c);
            assert forall|j: int| 0 <= j < prefix.len() implies is_digit(#[trigger] prefix[j]) by {
                assert(prefix[j] == text@[j]);
            }
            lemma_decimal_value_nonneg(prefix);
        }
        if !overflow {
            if value > (u64::MAX - d) / 10 {
                overflow = true;
                proof {
                    assert(value * 10 + d > u64::MAX) by (nonlinear_arith)
                        requires
                            value > (u64::MAX - d) / 10,
                            d <= 9,
                    ;
                }
            } else {
                proof {
                    assert(value * 10 + d <= u64::MAX) by (nonlinear_arith)
                        requires
                            value <= (u64::MAX - d) / 10,
                            d <= 9,
                    ;
                }
                value = value * 10 + d;
            }
        } else {
            proof {
                let prefix = text@.subrange(0, i as int);
                assert(decimal_value(prefix) * 10 + d > u64::MAX) by (nonlinear_arith)
                    requires
                        decimal_value(prefix) > u64::MAX,
                        d >= 0,
                ;
            }
        }
        i = i + 1;
    }
    proof {
        assert(text@.subrange(0, len as int) =~= text@);
    }
    if overflow {
        None
    } else {
        Some(value)
    }
}

impl Arity {
    /// The arity written as `source` in a Lumber program: a string of decimal digits
    /// is a number of unnamed arguments, anything else names an argument.
    ///
    /// Returns `None` when the number does not fit in a `u64`.
    pub fn new(source: &str, atomizer: &mut Atomizer) -> (r: Option<Arity>)
        requires
            old(atomizer).wf(),
            !is_decimal(source@) ==> well_formed_atom_source(source@),
        ensures
            final(atomizer).wf(),
            old(atomizer)@.is_prefix_of(final(atomizer)@),
            is_decimal(source@) ==> final(atomizer)@ == old(atomizer)@,
            is_decimal(source@) && decimal_value(source@) <= u64::MAX ==> r == Some(Arity::Len(decimal_value(source@) as u64)),
            is_decimal(source@) && decimal_value(source@) > u64::MAX ==> r.is_none(),
            !is_decimal(source@) ==> match r {
                Some(Arity::Name(atom)) => final(atomizer).contains(atom) && final(atomizer).name_of(atom) == atom_name_of_source(source@),
                _ => false,
            },
    {
        match parse_decimal(source) {
            Some(n) => Some(Arity::Len(n)),
            None => {
                if is_decimal_str(source) {
                    None
                } else {
                    let atom = atomizer.atomize(source);
                    Some(Arity::Name(atom))
                }
            },
        }
    }
}

/// Whether `text` is a non-empty string of decimal digits.
pub fn is_decimal_str(text: &str) -> (r: bool)
    ensures
        r == is_decimal(text@),
{
    let len = text.unicode_len();
    if len == 0 {
        return false;
    }
    let mut i: usize = 0;
    while i < len
        invariant
            len == text@.len(),
            0 <= i <= len,
            forall|j: int| 0 <= j < i ==> is_digit(#[trigger] text@[j]),
        decreases len - i,
    {
        let c = text.get_char(i);
        if c < '0' || c > '9' {
            return false;
        }
        i = i + 1;
    }
    true
}

} // verus!
