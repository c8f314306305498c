//! Bindings of variables to patterns.
use crate::identifier::Identifier;
use crate::pattern::{Pattern, PatternKind, pattern_of};
use crate::variable::{Variable, set_current};
use vstd::prelude::*;

verus! {

/// The pattern bound to `v` in `entries`, looking from the most recent entry.
pub open spec fn lookup(entries: Seq<(Variable, Pattern)>, v: Variable) -> Option<Pattern>
    decreases entries.len(),
{
    if entries.len() == 0 {
        None
    } else if entries.last().0 == v {
        Some(entries.last().1)
    } else {
        lookup(entries.drop_last(), v)
    }
}

/// The position of the entry of `v` in `entries`, looking from the most recent entry.
pub open spec fn index_of(entries: Seq<(Variable, Pattern)>, v: Variable) -> Option<int>
    decreases entries.len(),
{
    if entries.len() == 0 {
        None
    } else if entries.last().0 == v {
        Some(entries.len() - 1)
    } else {
        index_of(entries.drop_last(), v)
    }
}

/// The entries with `v` bound to `p`: its entry replaced if it has one, a new entry at the
/// end otherwise.
pub open spec fn bind_entry(entries: Seq<(Variable, Pattern)>, v: Variable, p: Pattern) -> Seq<(Variable, Pattern)> {
    match index_of(entries, v) {
        Some(i) => entries.update(i, (v, p)),
        None => entries.push((v, p)),
    }
}

/// Whether no variable has two entries.
pub open spec fn unique_keys(entries: Seq<(Variable, Pattern)>) -> bool {
    forall|i: int, j: int| 0 <= i < entries.len() && 0 <= j < entries.len() && i != j
        ==> #[trigger] entries[i].0 != #[trigger] entries[j].0
}

/// The pattern that `v` stands for: follow the chain of variables bound to other variables
/// until a variable bound to itself or to a pattern that is not a variable. At most
/// `fuel` steps are followed.
pub open spec fn chase(entries: Seq<(Variable, Pattern)>, v: Variable, fuel: nat) -> Option<Pattern>
    decreases fuel,
{
    match lookup(entries, v) {
        None => None,
        Some(p) => match *p.kind {
            PatternKind::Variable(next) => if next != v {
                if fuel == 0 {
                    None
                } else {
                    chase(entries, next, (fuel - 1) as nat)
                }
            } else {
                Some(p)
            },
            _ => Some(p),
        },
    }
}

/// The pattern bound to a variable itself.
pub open spec fn self_pattern(v: Variable) -> Pattern {
    pattern_of(PatternKind::Variable(v))
}

/// The variable made up with the number `i` in generation `g`.
pub open spec fn fresh_var(i: nat, g: usize) -> Variable {
    Variable { identifier: Identifier::spec_fresh(i), generation: Some(g) }
}

/// The greatest number of at most `i` whose made-up variable in generation `g` has no
/// entry, counting down; 0 when every greater one has an entry.
pub open spec fn free_below(entries: Seq<(Variable, Pattern)>, g: usize, i: nat) -> nat
    decreases i,
{
    if i == 0 || lookup(entries, fresh_var(i, g)) is None {
        i
    } else {
        free_below(entries, g, (i - 1) as nat)
    }
}

/// The mathematical value of a [`Binding`].
pub ghost struct BindingView {
    /// The variables and the patterns they are bound to; a variable bound to itself is
    /// not yet bound to a value.
    pub entries: Seq<(Variable, Pattern)>,
    /// The stack of generations being evaluated, the current one last.
    pub generations: Seq<usize>,
    /// The number of the next generation to start.
    pub next_generation: usize,
}

impl BindingView {
    /// Every variable has at most one entry, and a generation is being evaluated.
    pub open spec fn wf(self) -> bool {
        &&& unique_keys(self.entries)
        &&& self.generations.len() > 0
    }

    /// The current generation.
    pub open spec fn generation(self) -> usize {
        self.generations.last()
    }

    /// The pattern that `v` stands for; see [`chase`].
    pub open spec fn get(self, v: Variable) -> Option<Pattern> {
        chase(self.entries, v, self.entries.len())
    }

    /// The binding with `v`, placed in the current generation, bound to `p`.
    pub open spec fn set(self, v: Variable, p: Pattern) -> BindingView {
        BindingView {
            entries: bind_entry(self.entries, set_current(v, Some(self.generation())), p),
            ..self
        }
    }

    /// The fresh variable that `fresh_variable` makes next: numbered by the count of
    /// entries, unless a variable of that number already has an entry (see [`free_below`]).
    pub open spec fn next_fresh(self) -> Variable {
        fresh_var(free_below(self.entries, self.generation(), self.entries.len()), self.generation())
    }

    /// The binding after `fresh_variable`: the fresh variable bound to itself.
    pub open spec fn with_fresh(self) -> BindingView {
        BindingView {
            entries: bind_entry(self.entries, self.next_fresh(), self_pattern(self.next_fresh())),
            ..self
        }
    }
}

/// A binding of variables. Not all of the variables are necessarily bound, but together
/// they represent a valid solution to a query.
#[derive(Debug)]
pub struct Binding {
    entries: Vec<(Variable, Pattern)>,
    generations: Vec<usize>,
    next_generation: usize,
}

impl View for Binding {
    type V = BindingView;

    closed spec fn view(&self) -> BindingView {
        BindingView {
            entries: self.entries@,
            generations: self.generations@,
            next_generation: self.next_generation,
        }
    }
}

proof fn lemma_index_of(entries: Seq<(Variable, Pattern)>, v: Variable)
    ensures
        match index_of(entries, v) {
            Some(i) => 0 <= i < entries.len() && entries[i].0 == v && lookup(entries, v) == Some(entries[i].1),
            None => lookup(entries, v) is None && forall|j: int| 0 <= j < entries.len() ==> #[trigger] entries[j].0 != v,
        },
    decreases entries.len(),
{
    if entries.len() > 0 && entries.last().0 != v {
        lemma_index_of(entries.drop_last(), v);
        if index_of(entries.drop_last(), v) is None {
            assert forall|j: int| 0 <= j < entries.len() implies #[trigger] entries[j].0 != v by {
                if j < entries.len() - 1 {
                    assert(entries.drop_last()[j] == entries[j]);
                }
            }
        }
    }
}

/// Reading after writing: after `v` is bound to `p`, looking up `v` gives `p`, and looking
/// up any other variable gives what it gave before.
pub proof fn lemma_lookup_bind_entry(entries: Seq<(Variable, Pattern)>, v: Variable, p: Pattern, w: Variable)
    requires
        unique_keys(entries),
    ensures
        unique_keys(bind_entry(entries, v, p)),
        lookup(bind_entry(entries, v, p), v) == Some(p),
        w != v ==> lookup(bind_entry(entries, v, p), w) == lookup(entries, w),
        bind_entry(entries, v, p).len() == entries.len() + (if lookup(entries, v) is Some { 0int } else { 1int }),
{
    lemma_index_of(entries, v);
    let after = bind_entry(entries, v, p);
    match index_of(entries, v) {
        Some(i) => {
            assert forall|a: int, b: int| 0 <= a < after.len() && 0 <= b < after.len() && a != b implies #[trigger] after[a].0 != #[trigger] after[b].0 by {
                assert(entries[a].0 != entries[b].0 || a == b);
            }
            lemma_unique_lookup_at(after, i);
            if w != v {
                lemma_lookup_same_keys(entries, after, w, i);
            }
        },
        None => {
            assert forall|a: int, b: int| 0 <= a < after.len() && 0 <= b < after.len() && a != b implies #[trigger] after[a].0 != #[trigger] after[b].0 by {
                if a < entries.len() && b < entries.len() {
                    assert(entries[a].0 != entries[b].0);
                }
            }
            assert(after.drop_last() =~= entries);
        },
    }
}

proof fn lemma_unique_lookup_at(entries: Seq<(Variable, Pattern)>, i: int)
    requires
        unique_keys(entries),
        0 <= i < entries.len(),
    ensures
        lookup(entries, entries[i].0) == Some(entries[i].1),
    decreases entries.len(),
{
    if i < entries.len() - 1 {
        assert(entries.last().0 != entries[i].0);
        assert forall|a: int, b: int| 0 <= a < entries.drop_last().len() && 0 <= b < entries.drop_last().len() && a != b implies #[trigger] entries.drop_last()[a].0 != #[trigger] entries.drop_last()[b].0 by {
            assert(entries[a].0 != entries[b].0);
        }
        lemma_unique_lookup_at(entries.drop_last(), i);
    }
}

proof fn lemma_lookup_same_keys(entries: Seq<(Variable, Pattern)>, after: Seq<(Variable, Pattern)>, w: Variable, i: int)
    requires
        0 <= i < entries.len(),
        after.len() == entries.len(),
        forall|j: int| 0 <= j < entries.len() && j != i ==> after[j] == entries[j],
        after[i].0 == entries[i].0,
        entries[i].0 != w,
    ensures
        lookup(after, w) == lookup(entries, w),
    decreases entries.len(),
{
    if entries.len() > 0 {
        if i < entries.len() - 1 {
            lemma_lookup_same_keys(entries.drop_last(), after.drop_last(), w, i);
        } else {
            assert(after.drop_last() =~= entries.drop_last());
        }
    }
}

impl Binding {
    /// The binding in which each of `variables`, placed in generation 0, is bound to
    /// itself, evaluating generation 0.
    pub fn new(variables: &[Variable]) -> (r: Binding)
        ensures
            r@.wf(),
            r@.generations == seq![0usize],
            r@.next_generation == 1,
            forall|i: int| 0 <= i < variables@.len() ==> #[trigger] lookup(r@.entries, set_current(variables@[i], Some(0))) == Some(self_pattern(set_current(variables@[i], Some(0)))),
            forall|v: Variable| #[trigger] lookup(r@.entries, v) is Some ==> exists|i: int| 0 <= i < variables@.len() && v == set_current(variables@[i], Some(0)),
    {
        let mut generations: Vec<usize> = Vec::new();
        generations.push(0);
        let mut binding = Binding { entries: Vec::new(), generations, next_generation: 1 };
        let mut i: usize = 0;
        while i < variables.len()
            invariant
                0 <= i <= variables@.len(),
                binding@.wf(),
                binding@.generations == seq![0usize],
                binding@.next_generation == 1,
                forall|j: int| 0 <= j < i ==> #[trigger] lookup(binding@.entries, set_current(variables@[j], Some(0))) == Some(self_pattern(set_current(variables@[j], Some(0)))),
                forall|v: Variable| #[trigger] lookup(binding@.entries, v) is Some ==> exists|j: int| 0 <= j < i && v == set_current(variables@[j], Some(0)),
            decreases variables@.len() - i,
        {
            let var = variables[i].set_current(Some(0));
            let ghost before = binding@.entries;
            binding.put(var, Pattern::from_kind(PatternKind::Variable(var)));
            proof {
                assert forall|j: int| 0 <= j < i + 1 implies #[trigger] lookup(binding@.entries, set_current(variables@[j], Some(0))) == Some(self_pattern(set_current(variables@[j], Some(0)))) by {
                    lemma_lookup_bind_entry(before, var, self_pattern(var), set_current(variables@[j], Some(0)));
                }
                assert forall|v: Variable| #[trigger] lookup(binding@.entries, v) is Some implies exists|j: int| 0 <= j < i + 1 && v == set_current(variables@[j], Some(0)) by {
                    lemma_lookup_bind_entry(before, var, self_pattern(var), v);
                    if v != var {
                        assert(lookup(before, v) is Some);
                    }
                }
            }
            i = i + 1;
        }
        binding
    }

    /// The binding of no variables, evaluating generation 0.
    pub fn empty() -> (r: Binding)
        ensures
            r@.wf(),
            r@.entries == Seq::<(Variable, Pattern)>::empty(),
            r@.generations == seq![0usize],
            r@.next_generation == 1,
    {
        let mut generations: Vec<usize> = Vec::new();
        generations.push(0);
        Binding { entries: Vec::new(), generations, next_generation: 1 }
    }

    /// A copy of this binding.
    pub fn copy(&self) -> (r: Binding)
        ensures
            r@ == self@,
    {
        let mut entries: Vec<(Variable, Pattern)> = Vec::new();
        let mut i: usize = 0;
        while i < self.entries.len()
            invariant
                0 <= i <= self.entries@.len(),
                entries@ == self.entries@.subrange(0, i as int),
            decreases self.entries@.len() - i,
        {
            let (v, p) = &self.entries[i];
            entries.push((*v, p.copy()));
            i = i + 1;
            proof {
                assert(entries@ =~= self.entries@.subrange(0, i as int));
            }
        }
        let mut generations: Vec<usize> = Vec::new();
        let mut j: usize = 0;
        while j < self.generations.len()
            invariant
                0 <= j <= self.generations@.len(),
                generations@ == self.generations@.subrange(0, j as int),
            decreases self.generations@.len() - j,
        {
            generations.push(self.generations[j]);
            j = j + 1;
            proof {
                assert(generations@ =~= self.generations@.subrange(0, j as int));
            }
        }
        proof {
            assert(entries@ =~= self.entries@);
            assert(generations@ =~= self.generations@);
        }
        Binding { entries, generations, next_generation: self.next_generation }
    }

    /// The variables with an entry, each with the pattern it is bound to, in the order in
    /// which they were first bound.
    pub fn entries(&self) -> (r: &Vec<(Variable, Pattern)>)
        ensures
            r@ == self@.entries,
    {
        &self.entries
    }

    /// The number of variables with an entry.
    pub fn len(&self) -> (r: usize)
        ensures
            r == self@.entries.len(),
    {
        self.entries.len()
    }

    /// The current generation.
    pub fn generation(&self) -> (r: usize)
        requires
            self@.wf(),
        ensures
            r == self@.generation(),
    {
        self.generations[self.generations.len() - 1]
    }

    /// The generation before the current one.
    pub fn prev_generation(&self) -> (r: usize)
        requires
            self@.generations.len() >= 2,
        ensures
            r == self@.generations[self@.generations.len() - 2],
    {
        self.generations[self.generations.len() - 2]
    }

    /// The position of the entry of `v`, if it has one.
    fn find(&self, v: Variable) -> (r: Option<usize>)
        ensures
            match r {
                Some(i) => index_of(self@.entries, v) == Some(i as int),
                None => index_of(self@.entries, v) is None,
            },
    {
        let mut i: usize = self.entries.len();
        proof {
            assert(self.entries@.subrange(0, i as int) =~= self.entries@);
        }
        while i > 0
            invariant
                0 <= i <= self.entries@.len(),
                index_of(self.entries@, v) == index_of(self.entries@.subrange(0, i as int), v),
            decreases i,
        {
            let ghost prefix = self.entries@.subrange(0, i as int);
            if self.entries[i - 1].0 == v {
                return Some(i - 1);
            }
            i = i - 1;
            proof {
                assert(prefix.drop_last() =~= self.entries@.subrange(0, i as int));
            }
        }
        None
    }

    /// The pattern bound to `v` itself, without following chains of variables.
    pub fn lookup(&self, v: Variable) -> (r: Option<&Pattern>)
        ensures
            match r {
                Some(p) => lookup(self@.entries, v) == Some(*p),
                None => lookup(self@.entries, v) is None,
            },
    {
        proof {
            lemma_index_of(self@.entries, v);
        }
        match self.find(v) {
            Some(i) => Some(&self.entries[i].1),
            None => None,
        }
    }

    /// Binds `v` itself (not placed in any generation) to `p`.
    fn put(&mut self, v: Variable, p: Pattern)
        requires
            old(self)@.wf(),
        ensures
            final(self)@ == (BindingView { entries: bind_entry(old(self)@.entries, v, p), ..old(self)@ }),
            final(self)@.wf(),
    {
        proof {
            lemma_lookup_bind_entry(self@.entries, v, p, v);
            lemma_index_of(self@.entries, v);
        }
        match self.find(v) {
            Some(i) => {
                self.entries.set(i, (v, p));
            },
            None => {
                self.entries.push((v, p));
            },
        }
    }

    /// The pattern that `v` stands for; see [`BindingView::get`].
    ///
    /// Follows the chain of variables bound to other variables until it reaches a variable
    /// bound to itself or a pattern that is not a variable. Returns `None` when `v`, or a
    /// variable on the chain, has no entry.
    pub fn get(&self, v: Variable) -> (r: Option<Pattern>)
        ensures
            r == self@.get(v),
    {
        let total = self.entries.len();
        let mut current = v;
        let mut fuel: usize = total;
        loop
            invariant
                fuel <= total,
                total == self@.entries.len(),
                self@.get(v) == chase(self@.entries, current, fuel as nat),
            decreases fuel,
        {
            match self.lookup(current) {
                None => return None,
                Some(p) => {
                    match &*p.kind {
                        PatternKind::Variable(next) => {
                            if *next != current {
                                if fuel == 0 {
                                    return None;
                                }
                                current = *next;
                                fuel = fuel - 1;
                            } else {
                                return Some(p.copy());
                            }
                        },
                        _ => return Some(p.copy()),
                    }
                },
            }
        }
    }

    /// Binds `v`, placed in the current generation, to `p`.
    pub fn set(&mut self, v: Variable, p: Pattern)
        requires
            old(self)@.wf(),
        ensures
            final(self)@ == old(self)@.set(v, p),
            final(self)@.wf(),
    {
        let g = self.generation();
        self.put(v.set_current(Some(g)), p);
    }

    /// Whether this binding is well formed: no variable has two entries, and a generation
    /// is being evaluated.
    pub fn is_wf(&self) -> (r: bool)
        ensures
            r == self@.wf(),
    {
        if self.generations.len() == 0 {
            return false;
        }
        let n = self.entries.len();
        let mut i: usize = 0;
        while i < n
            invariant
                n == self@.entries.len(),
                i <= n,
                self@.generations.len() > 0,
                forall|a: int, b: int| 0 <= a < i && 0 <= b < n && a != b
                    ==> #[trigger] self@.entries[a].0 != #[trigger] self@.entries[b].0,
            decreases n - i,
        {
            let mut j: usize = 0;
            while j < n
                invariant
                    n == self@.entries.len(),
                    i < n,
                    j <= n,
                    forall|a: int, b: int| 0 <= a < i && 0 <= b < n && a != b
                        ==> #[trigger] self@.entries[a].0 != #[trigger] self@.entries[b].0,
                    forall|b: int| 0 <= b < j && b != i ==> self@.entries[i as int].0 != #[trigger] self@.entries[b].0,
                decreases n - j,
            {
                if j != i && self.entries[i].0 == self.entries[j].0 {
                    return false;
                }
                j = j + 1;
            }
            i = i + 1;
        }
        true
    }

    /// The number of the next generation to start.
    pub fn next_generation(&self) -> (r: usize)
        ensures
            r == self@.next_generation,
    {
        self.next_generation
    }

    /// How many generations are being evaluated, the current one included.
    pub fn depth(&self) -> (r: usize)
        ensures
            r == self@.generations.len(),
    {
        self.generations.len()
    }

    /// Makes up a new variable in the current generation, bound to itself. It has no entry
    /// before the call; its number is the count of entries unless a variable of that
    /// number was bound by hand.
    pub fn fresh_variable(&mut self) -> (r: Variable)
        requires
            old(self)@.wf(),
        ensures
            r == old(self)@.next_fresh(),
            lookup(old(self)@.entries, r) is None,
            lookup(old(self)@.entries, fresh_var(old(self)@.entries.len(), old(self)@.generation())) is None
                ==> r == fresh_var(old(self)@.entries.len(), old(self)@.generation()),
            final(self)@ == old(self)@.with_fresh(),
            final(self)@.entries.len() == old(self)@.entries.len() + 1,
            final(self)@.wf(),
    {
        let len = self.entries.len();
        let g = self.generation();
        let mut i = len;
        let mut found = i == 0 || self.lookup(Variable::new(Identifier::fresh(i), g)).is_none();
        while !found
            invariant
                i <= len,
                len == self@.entries.len(),
                g == self@.generation(),
                free_below(self@.entries, g, len as nat) == free_below(self@.entries, g, i as nat),
                found == (i == 0 || lookup(self@.entries, fresh_var(i as nat, g)) is None),
            decreases i,
        {
            i = i - 1;
            found = i == 0 || self.lookup(Variable::new(Identifier::fresh(i), g)).is_none();
        }
        proof {
            lemma_free_below_is_free(self@.entries, g);
            lemma_lookup_bind_entry(self@.entries, fresh_var(i as nat, g), self_pattern(fresh_var(i as nat, g)), fresh_var(i as nat, g));
        }
        let var = Variable::new(Identifier::fresh(i), g);
        self.put(var, Pattern::from_kind(PatternKind::Variable(var)));
        var
    }

    /// Starts a new generation: the next generation number becomes the current one.
    pub fn push_generation(&mut self)
        requires
            old(self)@.next_generation < usize::MAX,
        ensures
            final(self)@ == (BindingView {
                generations: old(self)@.generations.push(old(self)@.next_generation),
                next_generation: (old(self)@.next_generation + 1) as usize,
                ..old(self)@
            }),
    {
        let g = self.next_generation;
        self.generations.push(g);
        self.next_generation = g + 1;
    }

    /// Ends the current generation, returning to the one before it.
    pub fn end_generation(self) -> (r: Binding)
        requires
            self@.generations.len() >= 2,
        ensures
            r@ == (BindingView { generations: self@.generations.drop_last(), ..self@ }),
            r@ == crate::evaluate::ended(self@),
            self@.wf() ==> r@.wf(),
    {
        let mut binding = self;
        binding.generations.pop();
        binding
    }
}

/// After `set(v, p)`, the variable `v` (placed in the current generation) is bound to `p`
/// itself, and every other variable is bound as before.
pub proof fn lemma_set_then_lookup(b: BindingView, v: Variable, p: Pattern, w: Variable)
    requires
        b.wf(),
    ensures
        b.set(v, p).wf(),
        lookup(b.set(v, p).entries, set_current(v, Some(b.generation()))) == Some(p),
        w != set_current(v, Some(b.generation())) ==> lookup(b.set(v, p).entries, w) == lookup(b.entries, w),
        b.set(v, p).generation() == b.generation(),
{
    lemma_lookup_bind_entry(b.entries, set_current(v, Some(b.generation())), p, w);
}

/// The count-down of [`free_below`] ends at a number of at most `i`; where that number's
/// variable has an entry, so has every number up to `i`.
proof fn lemma_free_below(entries: Seq<(Variable, Pattern)>, g: usize, i: nat)
    ensures
        free_below(entries, g, i) <= i,
        lookup(entries, fresh_var(free_below(entries, g, i), g)) is Some
            ==> forall|k: nat| k <= i ==> #[trigger] lookup(entries, fresh_var(k, g)) is Some,
    decreases i,
{
    if !(i == 0 || lookup(entries, fresh_var(i, g)) is None) {
        lemma_free_below(entries, g, (i - 1) as nat);
        assert forall|k: nat| k <= i && lookup(entries, fresh_var(free_below(entries, g, i), g)) is Some
            implies #[trigger] lookup(entries, fresh_var(k, g)) is Some by {
            if k < i {
                assert(k <= (i - 1) as nat);
            }
        }
    }
}

/// A fresh variable is new: among the variables numbered from 0 to the count of entries,
/// at least one has no entry, and [`free_below`] finds one.
pub proof fn lemma_free_below_is_free(entries: Seq<(Variable, Pattern)>, g: usize)
    requires
        entries.len() <= usize::MAX,
    ensures
        free_below(entries, g, entries.len()) <= entries.len(),
        lookup(entries, fresh_var(free_below(entries, g, entries.len()), g)) is None,
{
    let n = entries.len();
    lemma_free_below(entries, g, n);
    if lookup(entries, fresh_var(free_below(entries, g, n), g)) is Some {
        let f = |k: int| index_of(entries, fresh_var(k as nat, g)).unwrap();
        let x = vstd::set_lib::set_int_range(0, n as int + 1);
        let y = x.map(f);
        assert forall|k: int| #[trigger] x.contains(k) implies 0 <= f(k) < n && entries[f(k)].0 == fresh_var(k as nat, g) by {
            assert(lookup(entries, fresh_var(k as nat, g)) is Some);
            lemma_index_of(entries, fresh_var(k as nat, g));
        }
        assert(vstd::relations::injective_on(f, x)) by {
            assert forall|k1: int, k2: int| x.contains(k1) && x.contains(k2) && #[trigger] f(k1) == #[trigger] f(k2) implies k1 == k2 by {
                Identifier::lemma_spec_fresh(k1 as nat);
                Identifier::lemma_spec_fresh(k2 as nat);
                assert(fresh_var(k1 as nat, g).identifier.spec_index() == k1);
            }
        }
        vstd::set_lib::lemma_int_range(0, n as int + 1);
        vstd::set_lib::lemma_int_range(0, n as int);
        vstd::set_lib::lemma_map_size(x, y, f);
        assert(y.subset_of(vstd::set_lib::set_int_range(0, n as int))) by {
            assert forall|j: int| #[trigger] y.contains(j) implies 0 <= j < n by {
                let k = choose|k: int| x.contains(k) && f(k) == j;
                assert(x.contains(k));
            }
        }
        vstd::set_lib::lemma_len_subset(y, vstd::set_lib::set_int_range(0, n as int));
    }
}

} // verus!
