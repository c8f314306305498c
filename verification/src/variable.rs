//! Variables: identifiers at a generation of evaluation.
use crate::identifier::Identifier;
use vstd::prelude::*;

verus! {

/// A variable: an identifier, in a generation of evaluation (the depth of the rule
/// application in which it lives), if that generation is known yet.
#[derive(Clone, Copy, PartialEq, Eq, Structural, Hash, Debug)]
pub struct Variable {
    pub identifier: Identifier,
    pub generation: Option<usize>,
}

/// The order of variables: variables of the same generation in the order of their
/// identifiers; a variable with no generation after every variable that has one; otherwise
/// by generation.
pub open spec fn variable_lt(a: Variable, b: Variable) -> bool {
    if a.generation == b.generation {
        a.identifier.spec_lt(b.identifier)
    } else if a.generation is None {
        false
    } else if b.generation is None {
        true
    } else {
        a.generation.unwrap() < b.generation.unwrap()
    }
}

/// The variable with its generation filled in with `now` when it has none yet.
pub open spec fn set_current(v: Variable, now: Option<usize>) -> Variable {
    Variable {
        identifier: v.identifier,
        generation: match v.generation {
            Some(g) => Some(g),
            None => now,
        },
    }
}

impl Variable {
    /// The variable `identifier` in generation `generation`.
    pub fn new(identifier: Identifier, generation: usize) -> (r: Variable)
        ensures
            r == (Variable { identifier, generation: Some(generation) }),
    {
        Variable { identifier, generation: Some(generation) }
    }

    /// The variable `identifier`, in a generation not yet known.
    pub fn new_generationless(identifier: Identifier) -> (r: Variable)
        ensures
            r == (Variable { identifier, generation: None }),
    {
        Variable { identifier, generation: None }
    }

    /// This variable, placed in generation `now` if it has no generation yet.
    pub fn set_current(&self, now: Option<usize>) -> (r: Variable)
        ensures
            r == set_current(*self, now),
    {
        Variable {
            identifier: self.identifier,
            generation: match self.generation {
                Some(g) => Some(g),
                None => now,
            },
        }
    }

    /// The identifier of this variable.
    pub fn identifier(&self) -> (r: Identifier)
        ensures
            r == self.identifier,
    {
        self.identifier
    }

    /// The generation of this variable, if known.
    pub fn generation(&self) -> (r: Option<usize>)
        ensures
            r == self.generation,
    {
        self.generation
    }

    /// Whether this variable is a wildcard.
    pub fn is_wildcard(&self) -> (r: bool)
        ensures
            r == (self.identifier.spec_kind() == crate::identifier::IdentifierKind::Wildcard),
    {
        self.identifier.is_wildcard()
    }

    /// Whether this variable comes before `other` in the order of variables.
    pub fn lt(&self, other: &Variable) -> (r: bool)
        ensures
            r == variable_lt(*self, *other),
    {
        if self.generation == other.generation {
            self.identifier.lt(&other.identifier)
        } else {
            match (self.generation, other.generation) {
                (None, _) => false,
                (_, None) => true,
                (Some(a), Some(b)) => a < b,
            }
        }
    }
}

/// Filling in a generation is idempotent, and never changes a generation that is known.
pub proof fn lemma_set_current_idempotent(v: Variable, a: Option<usize>, b: Option<usize>)
    ensures
        set_current(set_current(v, a), a) == set_current(v, a),
        v.generation is Some ==> set_current(v, a) == v,
        a is Some ==> set_current(set_current(v, a), b) == set_current(v, a),
{
}

/// The order of variables is a strict total order.
pub proof fn lemma_variable_order(a: Variable, b: Variable, c: Variable)
    ensures
        !variable_lt(a, a),
        variable_lt(a, b) && variable_lt(b, c) ==> variable_lt(a, c),
        a != b ==> (variable_lt(a, b) || variable_lt(b, a)),
{
    crate::identifier::lemma_identifier_order(a.identifier, b.identifier, c.identifier);
}


impl Variable {
    /// The name of this variable, as recorded by the context that compiled it; see
    /// [`Identifier::name`].
    pub fn name<'a>(&self, context: &'a crate::context::Context) -> (r: Option<&'a str>)
        ensures
            match r {
                Some(name) => self.identifier.spec_kind() != crate::identifier::IdentifierKind::Fresh
                    && self.identifier.spec_index() < context@.variables.len()
                    && name@ == context@.variables[self.identifier.spec_index() as int],
                None => self.identifier.spec_kind() == crate::identifier::IdentifierKind::Fresh
                    || self.identifier.spec_index() >= context@.variables.len(),
            },
    {
        self.identifier.name(context)
    }
}

} // verus!
