//! The state kept while a program is compiled: the atoms and variables met so far, the
//! headers of the modules, and the errors found.
use crate::atom::{Atom, Atomizer, str_equal};
use crate::handle::{Handle, HandleView};
use crate::handle_set::{handle_views, set_insert, map_insert, map_keys, lemma_unique_index_of};
use crate::header_errors::{HeaderError, HeaderErrorView, header_errors};
use crate::identifier::{Identifier, IdentifierKind};
use crate::module_header::{ModuleHeader, ModuleHeaderView, empty_header};
use crate::resolution::{module_views, all_wf, find_module_index, ResolveError, ResolveErrorView, find_module, first_like, module_of};
use crate::scope::{Scope, ScopeView, ScopePrefix};
use vstd::prelude::*;

verus! {

/// A problem found while compiling, as a mathematical value.
pub ghost enum ContextErrorView {
    DuplicateModule(ScopeView),
    DuplicateExport(HandleView),
    DuplicateIncomplete(HandleView),
    DuplicateMutable(HandleView),
    NegativeScope(Seq<char>),
    DuplicateImport(HandleView, HandleView),
    DuplicateGlob(ScopeView),
    DuplicateNative(HandleView),
    UnrecognizedOperator(Seq<char>),
    UnresolvedHandle(HandleView),
    AmbiguousReference(HandleView, Seq<HandleView>),
    Header(HeaderErrorView),
}

/// A problem found while compiling.
#[derive(Debug)]
pub enum ContextError {
    /// A module is declared more than once.
    DuplicateModule(Scope),
    /// A predicate is exported more than once.
    DuplicateExport(Handle),
    /// A predicate is declared incomplete more than once.
    DuplicateIncomplete(Handle),
    /// A predicate is set as mutable more than once.
    DuplicateMutable(Handle),
    /// A scope (its text is given) goes above the main module.
    NegativeScope(String),
    /// An alias is imported again: the alias, and what it stood for before.
    DuplicateImport(Handle, Handle),
    /// A module is glob imported more than once.
    DuplicateGlob(Scope),
    /// A native function is declared more than once.
    DuplicateNative(Handle),
    /// An operator that is not known (its text is given).
    UnrecognizedOperator(String),
    /// A predicate that cannot be resolved.
    UnresolvedHandle(Handle),
    /// A reference that could name several predicates: the handle, and those predicates.
    AmbiguousReference(Handle, Vec<Handle>),
    /// A problem of a module header.
    Header(HeaderError),
}

impl View for ContextError {
    type V = ContextErrorView;

    open spec fn view(&self) -> ContextErrorView {
        match self {
            ContextError::DuplicateModule(s) => ContextErrorView::DuplicateModule(s@),
            ContextError::DuplicateExport(h) => ContextErrorView::DuplicateExport(h@),
            ContextError::DuplicateIncomplete(h) => ContextErrorView::DuplicateIncomplete(h@),
            ContextError::DuplicateMutable(h) => ContextErrorView::DuplicateMutable(h@),
            ContextError::NegativeScope(t) => ContextErrorView::NegativeScope(t@),
            ContextError::DuplicateImport(a, b) => ContextErrorView::DuplicateImport(a@, b@),
            ContextError::DuplicateGlob(s) => ContextErrorView::DuplicateGlob(s@),
            ContextError::DuplicateNative(h) => ContextErrorView::DuplicateNative(h@),
            ContextError::UnrecognizedOperator(t) => ContextErrorView::UnrecognizedOperator(t@),
            ContextError::UnresolvedHandle(h) => ContextErrorView::UnresolvedHandle(h@),
            ContextError::AmbiguousReference(h, c) => ContextErrorView::AmbiguousReference(h@, handle_views(c@)),
            ContextError::Header(e) => ContextErrorView::Header(e@),
        }
    }
}

/// The scopes of a sequence of module headers.
pub open spec fn module_scopes(mods: Seq<ModuleHeaderView>) -> Seq<ScopeView> {
    mods.map_values(|m: ModuleHeaderView| m.scope)
}

/// The index that `name` is bound to in an environment, if it is bound.
pub open spec fn env_lookup(env: Seq<(Seq<char>, usize)>, name: Seq<char>) -> Option<usize>
    decreases env.len(),
{
    if env.len() == 0 {
        None
    } else if env.last().0 == name {
        Some(env.last().1)
    } else {
        env_lookup(env.drop_last(), name)
    }
}

/// The characters of `n` written in decimal.
pub open spec fn decimal_digits(n: nat) -> Seq<char>
    decreases n,
{
    if n < 10 {
        seq![(48 + n) as char]
    } else {
        decimal_digits(n / 10).push((48 + n % 10) as char)
    }
}

/// The name given to the variable made up when `n` variables are known: `#` and `n`.
pub open spec fn fresh_name(n: nat) -> Seq<char> {
    seq!['#'] + decimal_digits(n)
}

/// The mathematical value of a [`Context`].
pub ghost struct ContextView {
    /// The texts of the atoms met so far.
    pub atoms: Seq<Seq<char>>,
    /// The module being compiled.
    pub current_scope: ScopeView,
    /// The names of the variables met so far; a variable's identifier is its index here.
    pub variables: Seq<Seq<char>>,
    /// The variables of the clause being compiled: each name and its index.
    pub environment: Seq<(Seq<char>, usize)>,
    /// The headers of the modules declared so far.
    pub modules: Seq<ModuleHeaderView>,
    /// The problems found so far, each with the module in which it was found.
    pub errors: Seq<(ScopeView, ContextErrorView)>,
}

impl ContextView {
    /// No atom is made twice, every module header is well formed and declared once, and the
    /// environment names known variables.
    pub open spec fn wf(self) -> bool {
        &&& crate::atom::distinct_names(self.atoms)
        &&& all_wf(self.modules)
        &&& module_scopes(self.modules).no_duplicates()
        &&& forall|i: int| 0 <= i < self.environment.len() ==> (#[trigger] self.environment[i]).1 < self.variables.len()
        &&& forall|i: int| 0 <= i < self.environment.len()
            ==> self.variables[(#[trigger] self.environment[i]).1 as int] == self.environment[i].0
    }

    /// Whether a module at scope `s` has been declared.
    pub open spec fn has_module(self, s: ScopeView) -> bool {
        module_scopes(self.modules).contains(s)
    }

    /// The position of the module at scope `s`.
    pub open spec fn position(self, s: ScopeView) -> int {
        module_scopes(self.modules).index_of(s)
    }

    /// The header of the module being compiled.
    pub open spec fn current_module(self) -> ModuleHeaderView {
        self.modules[self.position(self.current_scope)]
    }

    /// The context with the header of the module being compiled replaced by `m`.
    pub open spec fn with_current(self, m: ModuleHeaderView) -> ContextView {
        ContextView { modules: self.modules.update(self.position(self.current_scope), m), ..self }
    }

    /// The context with `e` reported in the module being compiled.
    pub open spec fn report(self, e: ContextErrorView) -> ContextView {
        ContextView { errors: self.errors.push((self.current_scope, e)), ..self }
    }

    /// The context with `e` reported when `cond` holds.
    pub open spec fn report_if(self, cond: bool, e: ContextErrorView) -> ContextView {
        if cond {
            self.report(e)
        } else {
            self
        }
    }

    /// The context after `declare_export(h)`.
    pub open spec fn after_export(self, h: HandleView) -> ContextView {
        let m = self.current_module();
        self.with_current(ModuleHeaderView { exports: set_insert(m.exports, h), ..m })
            .report_if(m.exports.contains(h), ContextErrorView::DuplicateExport(h))
    }

    /// The context after `declare_mutable(h)`.
    pub open spec fn after_mutable(self, h: HandleView) -> ContextView {
        let m = self.current_module();
        self.with_current(ModuleHeaderView {
            definitions: set_insert(m.definitions, h),
            mutables: set_insert(m.mutables, h),
            ..m
        }).report_if(m.mutables.contains(h), ContextErrorView::DuplicateMutable(h))
    }

    /// The context after `declare_alias(alias, source)`.
    pub open spec fn after_alias(self, alias: HandleView, source: HandleView) -> ContextView {
        let m = self.current_module();
        self.with_current(ModuleHeaderView { aliases: map_insert(m.aliases, alias, source), ..m })
            .report_if(m.alias_of(alias) is Some, ContextErrorView::DuplicateImport(alias, m.alias_of(alias).unwrap()))
    }

    /// The context after `declare_incomplete(h)`.
    pub open spec fn after_incomplete(self, h: HandleView) -> ContextView {
        let m = self.current_module();
        let after = self.with_current(ModuleHeaderView {
            definitions: set_insert(m.definitions, h),
            exports: set_insert(m.exports, h),
            incompletes: set_insert(m.incompletes, h),
            ..m
        });
        if m.incompletes.contains(h) {
            after.report(ContextErrorView::DuplicateIncomplete(h))
        } else {
            after.report_if(m.exports.contains(h), ContextErrorView::DuplicateExport(h))
        }
    }

    /// The context after `import_glob(s)`.
    pub open spec fn after_glob(self, s: ScopeView) -> ContextView {
        let m = self.current_module();
        self.with_current(ModuleHeaderView { globs: set_insert(m.globs, s), ..m })
            .report_if(m.globs.contains(s), ContextErrorView::DuplicateGlob(s))
    }

    /// The context after `declare_native(h)`.
    pub open spec fn after_native(self, h: HandleView) -> ContextView {
        let m = self.current_module();
        self.with_current(ModuleHeaderView { natives: set_insert(m.natives, h), ..m })
            .report_if(m.natives.contains(h), ContextErrorView::DuplicateNative(h))
    }

    /// The context after `declare_predicate(h)`.
    pub open spec fn after_predicate(self, h: HandleView) -> ContextView {
        let m = self.current_module();
        self.with_current(ModuleHeaderView { definitions: set_insert(m.definitions, h), ..m })
    }

    /// The context after each alias of `aliases` (an alias and its source) is declared in
    /// turn.
    pub open spec fn after_aliases(self, aliases: Seq<(HandleView, HandleView)>) -> ContextView
        decreases aliases.len(),
    {
        if aliases.len() == 0 {
            self
        } else {
            self.after_aliases(aliases.drop_last()).after_alias(aliases.last().0, aliases.last().1)
        }
    }

    /// The context after `get_variable(name)`: a name not yet in the environment gets the
    /// next index.
    pub open spec fn with_variable(self, name: Seq<char>) -> ContextView {
        match env_lookup(self.environment, name) {
            Some(_) => self,
            None => ContextView {
                variables: self.variables.push(name),
                environment: self.environment.push((name, self.variables.len() as usize)),
                ..self
            },
        }
    }

    /// The index that `get_variable(name)` gives.
    pub open spec fn variable_index(self, name: Seq<char>) -> usize {
        match env_lookup(self.environment, name) {
            Some(i) => i,
            None => self.variables.len() as usize,
        }
    }
}

/// The state kept while a program is compiled.
#[derive(Debug)]
pub struct Context {
    atomizer: Atomizer,
    current_scope: Scope,
    variables: Vec<String>,
    environment: Vec<(String, usize)>,
    modules: Vec<ModuleHeader>,
    errors: Vec<(Scope, ContextError)>,
}

impl View for Context {
    type V = ContextView;

    closed spec fn view(&self) -> ContextView {
        ContextView {
            atoms: self.atomizer@,
            current_scope: self.current_scope@,
            variables: self.variables@.map_values(|s: String| s@),
            environment: self.environment@.map_values(|p: (String, usize)| (p.0@, p.1)),
            modules: module_views(self.modules@),
            errors: self.errors@.map_values(|p: (Scope, ContextError)| (p.0@, p.1@)),
        }
    }
}

/// The name `#` followed by `n` in decimal.
fn fresh_name_string(n: usize) -> (r: String)
    ensures
        r@ == fresh_name(n as nat),
{
    let mut name = String::from_str("#");
    proof {
        reveal_strlit("#");
    }
    crate::text::write_decimal(&mut name, n as u64);
    name
}

impl Context {
    /// A context in which nothing has been met yet, compiling the root of the program,
    /// whose module is declared.
    pub fn new() -> (r: Context)
        ensures
            r@.wf(),
            r@.atoms == Seq::<Seq<char>>::empty(),
            r@.current_scope == (ScopeView { lib: None, path: Seq::empty() }),
            r@.variables == Seq::<Seq<char>>::empty(),
            r@.environment == Seq::<(Seq<char>, usize)>::empty(),
            r@.modules == seq![empty_header(ScopeView { lib: None, path: Seq::empty() })],
            r@.errors == Seq::<(ScopeView, ContextErrorView)>::empty(),
    {
        let mut modules: Vec<ModuleHeader> = Vec::new();
        modules.push(ModuleHeader::new(Scope::root()));
        let r = Context {
            atomizer: Atomizer::new(),
            current_scope: Scope::root(),
            variables: Vec::new(),
            environment: Vec::new(),
            modules,
            errors: Vec::new(),
        };
        proof {
            assert(r@.variables =~= Seq::<Seq<char>>::empty());
            assert(r@.environment =~= Seq::<(Seq<char>, usize)>::empty());
            assert(r@.modules =~= seq![modules@[0]@]);
            assert(r@.errors =~= Seq::<(ScopeView, ContextErrorView)>::empty());
            assert(module_scopes(r@.modules) =~= seq![modules@[0]@.scope]);
        }
        r
    }

    /// The atoms met so far.
    pub fn atomizer(&self) -> (r: &Atomizer)
        ensures
            r@ == self@.atoms,
    {
        &self.atomizer
    }

    /// Interns the atom written as `source`; see [`Atomizer::atomize`].
    pub fn atomize(&mut self, source: &str) -> (r: Atom)
        requires
            old(self)@.wf(),
            crate::atom::well_formed_atom_source(source@),
        ensures
            final(self)@ == (ContextView { atoms: final(self)@.atoms, ..old(self)@ }),
            final(self)@.wf(),
            r.spec_index() < final(self)@.atoms.len(),
            final(self)@.atoms[r.spec_index() as int] == crate::atom::atom_name_of_source(source@),
            old(self)@.atoms.contains(crate::atom::atom_name_of_source(source@)) ==> final(self)@.atoms == old(self)@.atoms,
            !old(self)@.atoms.contains(crate::atom::atom_name_of_source(source@)) ==> final(self)@.atoms == old(self)@.atoms.push(crate::atom::atom_name_of_source(source@)),
    {
        self.atomizer.atomize(source)
    }

    /// The module being compiled.
    pub fn current_scope(&self) -> (r: &Scope)
        ensures
            r@ == self@.current_scope,
    {
        &self.current_scope
    }

    /// The headers of the modules declared so far.
    pub fn modules(&self) -> (r: &Vec<ModuleHeader>)
        ensures
            module_views(r@) == self@.modules,
    {
        &self.modules
    }

    /// The problems found so far, each with the module in which it was found.
    pub fn errors(&self) -> (r: &Vec<(Scope, ContextError)>)
        ensures
            r@.map_values(|p: (Scope, ContextError)| (p.0@, p.1@)) == self@.errors,
    {
        &self.errors
    }

    /// Whether no problem has been found.
    pub fn is_ok(&self) -> (r: bool)
        ensures
            r == (self@.errors.len() == 0),
    {
        self.errors.len() == 0
    }

    /// Enters the submodule `module` of the module being compiled.
    pub fn enter_module(&mut self, module: Atom)
        ensures
            final(self)@ == (ContextView {
                current_scope: ScopeView { lib: old(self)@.current_scope.lib, path: old(self)@.current_scope.path.push(module) },
                ..old(self)@
            }),
    {
        self.current_scope.push(module);
    }

    /// Leaves the module being compiled, returning to its parent.
    pub fn leave_module(&mut self)
        requires
            old(self)@.current_scope.path.len() > 0,
        ensures
            final(self)@ == (ContextView {
                current_scope: ScopeView { lib: old(self)@.current_scope.lib, path: old(self)@.current_scope.path.drop_last() },
                ..old(self)@
            }),
    {
        self.current_scope.pop();
    }
}


proof fn lemma_replace_module(s: Seq<ModuleHeader>, i: int, m: ModuleHeader)
    requires
        0 <= i < s.len(),
    ensures
        module_views(s.remove(i).insert(i, m)) == module_views(s).update(i, m@),
{
    assert(module_views(s.remove(i).insert(i, m)) =~= module_views(s).update(i, m@));
}

impl Context {
    /// The identifier of the variable named `name` in the clause being compiled: the one
    /// already known by that name, or else a new one, with the next index.
    pub fn get_variable(&mut self, name: &str) -> (r: Identifier)
        requires
            old(self)@.wf(),
            old(self)@.variables.len() < usize::MAX,
        ensures
            final(self)@ == old(self)@.with_variable(name@),
            final(self)@.wf(),
            r.spec_index() == old(self)@.variable_index(name@),
            r.spec_kind() == IdentifierKind::Named,
    {
        let ghost env = self@.environment;
        let mut i: usize = self.environment.len();
        proof {
            assert(env.subrange(0, i as int) =~= env);
        }
        while i > 0
            invariant
                0 <= i <= self.environment@.len(),
                env == self@.environment,
                self@ == old(self)@,
                self@.wf(),
                env_lookup(env, name@) == env_lookup(env.subrange(0, i as int), name@),
            decreases i,
        {
            let ghost prefix = env.subrange(0, i as int);
            assert(prefix.last() == (self.environment@[i - 1].0@, self.environment@[i - 1].1));
            if str_equal(self.environment[i - 1].0.as_str(), name) {
                return Identifier::new(self.environment[i - 1].1);
            }
            proof {
                assert(prefix.drop_last() =~= env.subrange(0, i as int - 1));
            }
            i = i - 1;
        }
        let index = self.variables.len();
        let ghost before = self@;
        self.variables.push(String::from_str(name));
        self.environment.push((String::from_str(name), index));
        proof {
            assert(self@.variables =~= before.variables.push(name@));
            assert(self@.environment =~= before.environment.push((name@, index)));
            assert forall|k: int| 0 <= k < self@.environment.len() implies (#[trigger] self@.environment[k]).1 < self@.variables.len() by {
                if k < before.environment.len() {
                    assert(self@.environment[k] == before.environment[k]);
                }
            }
        }
        Identifier::new(index)
    }

    /// Makes up a variable for the clause being compiled: the one named `#` followed by
    /// the number of variables known so far.
    pub fn fresh_variable(&mut self) -> (r: Identifier)
        requires
            old(self)@.wf(),
            old(self)@.variables.len() < usize::MAX,
        ensures
            final(self)@ == old(self)@.with_variable(fresh_name(old(self)@.variables.len())),
            final(self)@.wf(),
            r.spec_index() == old(self)@.variable_index(fresh_name(old(self)@.variables.len())),
            r.spec_kind() == IdentifierKind::Named,
    {
        let name = fresh_name_string(self.variables.len());
        self.get_variable(name.as_str())
    }

    /// Forgets the variables of the clause just compiled; their names stay known.
    pub fn reset_environment(&mut self)
        requires
            old(self)@.wf(),
        ensures
            final(self)@ == (ContextView { environment: Seq::empty(), ..old(self)@ }),
            final(self)@.wf(),
    {
        self.environment.clear();
        proof {
            assert(self@.environment =~= Seq::<(Seq<char>, usize)>::empty());
        }
    }

    /// Reports `e` in the module being compiled.
    fn report(&mut self, e: ContextError)
        ensures
            final(self)@ == old(self)@.report(e@),
    {
        let ghost before = self@;
        self.errors.push((self.current_scope.copy(), e));
        proof {
            assert(self@.errors =~= before.errors.push((before.current_scope, e@)));
        }
    }

    /// Declares the submodule `module` of the module being compiled, and enters it. When a
    /// module at that scope was declared before, reports it and stays where it is.
    pub fn add_module(&mut self, module: Atom) -> (r: bool)
        requires
            old(self)@.wf(),
        ensures
            ({
                let s = ScopeView { lib: old(self)@.current_scope.lib, path: old(self)@.current_scope.path.push(module) };
                if old(self)@.has_module(s) {
                    &&& !r
                    &&& final(self)@ == old(self)@.report(ContextErrorView::DuplicateModule(s))
                } else {
                    &&& r
                    &&& final(self)@ == (ContextView {
                        modules: old(self)@.modules.push(empty_header(s)),
                        current_scope: s,
                        ..old(self)@
                    })
                }
            }),
            final(self)@.wf(),
    {
        let scope = self.current_scope.join(module);
        match find_module_index(&self.modules, &scope) {
            Some(j) => {
                proof {
                    assert(module_scopes(self@.modules)[j as int] == scope@);
                }
                self.error_duplicate_module(scope);
                false
            },
            None => {
                let ghost before = self@;
                proof {
                    assert(!module_scopes(before.modules).contains(scope@)) by {
                        if module_scopes(before.modules).contains(scope@) {
                            let k = choose|k: int| 0 <= k < module_scopes(before.modules).len() && module_scopes(before.modules)[k] == scope@;
                            assert(self.modules@[k]@.scope == scope@);
                        }
                    }
                }
                self.modules.push(ModuleHeader::new(scope));
                self.current_scope.push(module);
                proof {
                    assert(self@.modules =~= before.modules.push(empty_header(scope@)));
                    assert(module_scopes(self@.modules) =~= module_scopes(before.modules).push(scope@));
                    crate::handle_set::lemma_set_insert_no_duplicates(module_scopes(before.modules), scope@);
                    assert forall|k: int| 0 <= k < self@.modules.len() implies (#[trigger] self@.modules[k]).wf() by {
                        if k < before.modules.len() {
                            assert(self@.modules[k] == before.modules[k]);
                        }
                    }
                }
                true
            },
        }
    }

    /// The position of the header of the module being compiled.
    fn current_index(&self) -> (r: usize)
        requires
            self@.wf(),
            self@.has_module(self@.current_scope),
        ensures
            r == self@.position(self@.current_scope),
            r < self.modules@.len(),
    {
        match find_module_index(&self.modules, &self.current_scope) {
            Some(j) => {
                proof {
                    assert(module_scopes(self@.modules)[j as int] == self@.current_scope);
                    lemma_unique_index_of(module_scopes(self@.modules), j as int);
                }
                j
            },
            None => {
                proof {
                    let k = choose|k: int| 0 <= k < module_scopes(self@.modules).len() && module_scopes(self@.modules)[k] == self@.current_scope;
                    assert(self.modules@[k]@.scope == self@.current_scope);
                }
                0
            },
        }
    }

    /// Puts `m` back as the header at position `i`, from which it was taken.
    proof fn lemma_put_back(before: ContextView, after: ContextView, i: int, m: ModuleHeaderView)
        requires
            before.wf(),
            0 <= i < before.modules.len(),
            m.wf(),
            m.scope == before.modules[i].scope,
            after == (ContextView { modules: before.modules.update(i, m), ..before }),
        ensures
            after.wf(),
            module_scopes(after.modules) == module_scopes(before.modules),
    {
        assert(module_scopes(after.modules) =~= module_scopes(before.modules));
        assert forall|k: int| 0 <= k < after.modules.len() implies (#[trigger] after.modules[k]).wf() by {
            if k != i {
                assert(after.modules[k] == before.modules[k]);
            }
        }
    }

    /// Exports `handle` from the module being compiled, reporting it when it was already
    /// exported.
    pub fn declare_export(&mut self, handle: Handle)
        requires
            old(self)@.wf(),
            old(self)@.has_module(old(self)@.current_scope),
            handle@.named(),
        ensures
            final(self)@ == old(self)@.after_export(handle@),
            final(self)@.wf(),
            final(self)@.has_module(final(self)@.current_scope),
    {
        let i = self.current_index();
        let ghost before = self@;
        let mut m = self.modules.remove(i);
        assert(m@ == before.modules[i as int]);
        let previous = m.insert_public(handle);
        self.modules.insert(i, m);
        proof {
            lemma_replace_module(old(self).modules@, i as int, m);
            Self::lemma_put_back(before, self@, i as int, m@);
        }
        if let Some(p) = previous {
            self.report(ContextError::DuplicateExport(p));
        }
    }

    /// Sets `handle`, a predicate of the module being compiled, as mutable, reporting it
    /// when it was already set so.
    pub fn declare_mutable(&mut self, handle: Handle)
        requires
            old(self)@.wf(),
            old(self)@.has_module(old(self)@.current_scope),
            handle@.named(),
        ensures
            final(self)@ == old(self)@.after_mutable(handle@),
            final(self)@.wf(),
            final(self)@.has_module(final(self)@.current_scope),
    {
        let i = self.current_index();
        let ghost before = self@;
        let mut m = self.modules.remove(i);
        assert(m@ == before.modules[i as int]);
        let previous = m.insert_mutable(handle);
        self.modules.insert(i, m);
        proof {
            lemma_replace_module(old(self).modules@, i as int, m);
            Self::lemma_put_back(before, self@, i as int, m@);
        }
        if let Some(p) = previous {
            self.report(ContextError::DuplicateMutable(p));
        }
    }

    /// Imports `source` into the module being compiled under the name `alias`, reporting it
    /// when `alias` was already imported.
    pub fn declare_alias(&mut self, alias: Handle, source: Handle)
        requires
            old(self)@.wf(),
            old(self)@.has_module(old(self)@.current_scope),
            alias@.named(),
            source@.named(),
        ensures
            final(self)@ == old(self)@.after_alias(alias@, source@),
            final(self)@.wf(),
            final(self)@.has_module(final(self)@.current_scope),
    {
        let i = self.current_index();
        let ghost before = self@;
        let mut m = self.modules.remove(i);
        assert(m@ == before.modules[i as int]);
        let previous = m.insert_alias(alias, source);
        self.modules.insert(i, m);
        proof {
            lemma_replace_module(old(self).modules@, i as int, m);
            Self::lemma_put_back(before, self@, i as int, m@);
        }
        if let Some((a, s)) = previous {
            self.report(ContextError::DuplicateImport(a, s));
        }
    }

    /// Declares `handle` as incomplete in the module being compiled (and exports it),
    /// reporting it when it was already declared incomplete, or else when it was already
    /// exported.
    pub fn declare_incomplete(&mut self, handle: Handle)
        requires
            old(self)@.wf(),
            old(self)@.has_module(old(self)@.current_scope),
            handle@.named(),
        ensures
            final(self)@ == old(self)@.after_incomplete(handle@),
            final(self)@.wf(),
            final(self)@.has_module(final(self)@.current_scope),
    {
        let i = self.current_index();
        let ghost before = self@;
        let mut m = self.modules.remove(i);
        assert(m@ == before.modules[i as int]);
        let (exported, incomplete) = m.insert_incomplete(handle);
        self.modules.insert(i, m);
        proof {
            lemma_replace_module(old(self).modules@, i as int, m);
            Self::lemma_put_back(before, self@, i as int, m@);
        }
        if let Some(h) = incomplete {
            self.report(ContextError::DuplicateIncomplete(h));
        } else if let Some(h) = exported {
            self.report(ContextError::DuplicateExport(h));
        }
    }

    /// Imports everything `module` exports into the module being compiled, reporting it
    /// when the module was already imported this way.
    pub fn import_glob(&mut self, module: Scope)
        requires
            old(self)@.wf(),
            old(self)@.has_module(old(self)@.current_scope),
        ensures
            final(self)@ == old(self)@.after_glob(module@),
            final(self)@.wf(),
            final(self)@.has_module(final(self)@.current_scope),
    {
        let i = self.current_index();
        let ghost before = self@;
        let mut m = self.modules.remove(i);
        assert(m@ == before.modules[i as int]);
        let previous = m.insert_glob(module);
        self.modules.insert(i, m);
        proof {
            lemma_replace_module(old(self).modules@, i as int, m);
            Self::lemma_put_back(before, self@, i as int, m@);
        }
        if let Some(p) = previous {
            self.report(ContextError::DuplicateGlob(p));
        }
    }

    /// Declares `handle` as a native function of the module being compiled, reporting it
    /// when it was already declared so.
    pub fn declare_native(&mut self, handle: Handle)
        requires
            old(self)@.wf(),
            old(self)@.has_module(old(self)@.current_scope),
            handle@.named(),
        ensures
            final(self)@ == old(self)@.after_native(handle@),
            final(self)@.wf(),
            final(self)@.has_module(final(self)@.current_scope),
    {
        let i = self.current_index();
        let ghost before = self@;
        let mut m = self.modules.remove(i);
        assert(m@ == before.modules[i as int]);
        let previous = m.insert_native(handle);
        self.modules.insert(i, m);
        proof {
            lemma_replace_module(old(self).modules@, i as int, m);
            Self::lemma_put_back(before, self@, i as int, m@);
        }
        if let Some(p) = previous {
            self.report(ContextError::DuplicateNative(p));
        }
    }

    /// Declares `handle` as a predicate defined in the module being compiled.
    pub fn declare_predicate(&mut self, handle: Handle)
        requires
            old(self)@.wf(),
            old(self)@.has_module(old(self)@.current_scope),
            handle@.named(),
        ensures
            final(self)@ == old(self)@.after_predicate(handle@),
            final(self)@.wf(),
            final(self)@.has_module(final(self)@.current_scope),
    {
        let i = self.current_index();
        let ghost before = self@;
        let mut m = self.modules.remove(i);
        assert(m@ == before.modules[i as int]);
        m.insert(handle);
        self.modules.insert(i, m);
        proof {
            lemma_replace_module(old(self).modules@, i as int, m);
            Self::lemma_put_back(before, self@, i as int, m@);
        }
    }

    /// Reports that the module `module` is declared more than once.
    pub fn error_duplicate_module(&mut self, module: Scope)
        ensures
            final(self)@ == old(self)@.report(ContextErrorView::DuplicateModule(module@)),
    {
        self.report(ContextError::DuplicateModule(module));
    }

    /// Reports that `handle` is exported more than once.
    pub fn error_duplicate_export(&mut self, handle: Handle)
        ensures
            final(self)@ == old(self)@.report(ContextErrorView::DuplicateExport(handle@)),
    {
        self.report(ContextError::DuplicateExport(handle));
    }

    /// Reports that `handle` is declared incomplete more than once.
    pub fn error_duplicate_incomplete(&mut self, handle: Handle)
        ensures
            final(self)@ == old(self)@.report(ContextErrorView::DuplicateIncomplete(handle@)),
    {
        self.report(ContextError::DuplicateIncomplete(handle));
    }

    /// Reports that `handle` is set as mutable more than once.
    pub fn error_duplicate_mutable(&mut self, handle: Handle)
        ensures
            final(self)@ == old(self)@.report(ContextErrorView::DuplicateMutable(handle@)),
    {
        self.report(ContextError::DuplicateMutable(handle));
    }

    /// Reports that the scope written `text` goes above the main module.
    pub fn error_negative_scope(&mut self, text: &str)
        ensures
            final(self)@ == old(self)@.report(ContextErrorView::NegativeScope(text@)),
    {
        self.report(ContextError::NegativeScope(String::from_str(text)));
    }

    /// Reports that `import` was already imported from `from`.
    pub fn error_duplicate_import(&mut self, import: Handle, from: Handle)
        ensures
            final(self)@ == old(self)@.report(ContextErrorView::DuplicateImport(import@, from@)),
    {
        self.report(ContextError::DuplicateImport(import, from));
    }

    /// Reports that the module `module` is glob imported more than once.
    pub fn error_duplicate_glob(&mut self, module: Scope)
        ensures
            final(self)@ == old(self)@.report(ContextErrorView::DuplicateGlob(module@)),
    {
        self.report(ContextError::DuplicateGlob(module));
    }

    /// Reports that the native function `handle` is declared more than once.
    pub fn error_duplicate_native(&mut self, handle: Handle)
        ensures
            final(self)@ == old(self)@.report(ContextErrorView::DuplicateNative(handle@)),
    {
        self.report(ContextError::DuplicateNative(handle));
    }

    /// Reports that the operator written `token` is not known.
    pub fn error_unrecognized_operator(&mut self, token: &str)
        ensures
            final(self)@ == old(self)@.report(ContextErrorView::UnrecognizedOperator(token@)),
    {
        self.report(ContextError::UnrecognizedOperator(String::from_str(token)));
    }

    /// Reports that `handle` cannot be resolved.
    pub fn error_unresolved_handle(&mut self, handle: &Handle)
        ensures
            final(self)@ == old(self)@.report(ContextErrorView::UnresolvedHandle(handle@)),
    {
        self.report(ContextError::UnresolvedHandle(handle.copy()));
    }

    /// Reports that `handle` could refer to any of `candidates`.
    pub fn error_ambiguous_reference(&mut self, handle: &Handle, candidates: Vec<Handle>)
        ensures
            final(self)@ == old(self)@.report(ContextErrorView::AmbiguousReference(handle@, handle_views(candidates@))),
    {
        self.report(ContextError::AmbiguousReference(handle.copy(), candidates));
    }
}


/// Problems of a module header, each reported in the module `s`.
pub open spec fn tag_errors(s: ScopeView, es: Seq<HeaderErrorView>) -> Seq<(ScopeView, ContextErrorView)> {
    es.map_values(|e: HeaderErrorView| (s, ContextErrorView::Header(e)))
}

/// The problems of the first `k` module headers of `mods`, in order, each reported in its
/// module; `Err` when resolution meets a missing module or a cycle of imports.
pub open spec fn validated(mods: Seq<ModuleHeaderView>, bound: Seq<HandleView>, k: nat) -> Result<Seq<(ScopeView, ContextErrorView)>, ResolveErrorView>
    decreases k,
{
    if k == 0 {
        Ok(Seq::empty())
    } else {
        match validated(mods, bound, (k - 1) as nat) {
            Err(e) => Err(e),
            Ok(prev) => match header_errors(mods, mods[k - 1], bound) {
                Err(e) => Err(e),
                Ok(es) => Ok(prev + tag_errors(mods[k - 1].scope, es)),
            },
        }
    }
}

proof fn lemma_validated_stop(mods: Seq<ModuleHeaderView>, bound: Seq<HandleView>, k: nat, n: nat, e: ResolveErrorView)
    requires
        k <= n,
        validated(mods, bound, k) == Err::<Seq<(ScopeView, ContextErrorView)>, ResolveErrorView>(e),
    ensures
        validated(mods, bound, n) == Err::<Seq<(ScopeView, ContextErrorView)>, ResolveErrorView>(e),
    decreases n,
{
    if n > k {
        lemma_validated_stop(mods, bound, k, (n - 1) as nat, e);
    }
}

impl Context {
    /// Checks the header of every module declared, given the native functions the program
    /// binds, and reports their problems, each in its module; see [`validated`]. When
    /// resolution meets a missing module or a cycle of imports, nothing is reported and
    /// that error is given back.
    pub fn validate_headers(&mut self, bound_natives: &Vec<Handle>) -> (r: Result<(), ResolveError>)
        requires
            old(self)@.wf(),
        ensures
            match validated(old(self)@.modules, handle_views(bound_natives@), old(self)@.modules.len()) {
                Ok(found) => r is Ok && final(self)@ == (ContextView { errors: old(self)@.errors + found, ..old(self)@ }),
                Err(e) => r matches Err(x) && x@ == e && final(self)@ == old(self)@,
            },
            final(self)@.wf(),
    {
        let ghost mods = self@.modules;
        let ghost bound = handle_views(bound_natives@);
        let mut found: Vec<(Scope, ContextError)> = Vec::new();
        let mut i: usize = 0;
        proof {
            assert(found@.map_values(|p: (Scope, ContextError)| (p.0@, p.1@)) =~= Seq::<(ScopeView, ContextErrorView)>::empty());
        }
        while i < self.modules.len()
            invariant
                0 <= i <= self.modules@.len(),
                mods == self@.modules,
                self@ == old(self)@,
                self@.wf(),
                bound == handle_views(bound_natives@),
                validated(mods, bound, i as nat) == Ok::<Seq<(ScopeView, ContextErrorView)>, ResolveErrorView>(
                    found@.map_values(|p: (Scope, ContextError)| (p.0@, p.1@)),
                ),
            decreases self.modules@.len() - i,
        {
            let m = &self.modules[i];
            assert(mods[i as int] == m@);
            assert(mods[i as int].wf());
            match m.errors(&self.modules, bound_natives) {
                Err(e) => {
                    proof {
                        lemma_validated_stop(mods, bound, (i + 1) as nat, mods.len(), e@);
                    }
                    return Err(e);
                },
                Ok(es) => {
                    let ghost all = es@;
                    let ghost start = found@;
                    let mut es = es;
                    let total = es.len();
                    let mut taken: usize = 0;
                    while es.len() > 0
                        invariant
                            0 <= taken <= all.len(),
                            all.len() == total,
                            i < mods.len(),
                            es@ == all.subrange(taken as int, all.len() as int),
                            m@ == mods[i as int],
                            found@.map_values(|p: (Scope, ContextError)| (p.0@, p.1@))
                                == start.map_values(|p: (Scope, ContextError)| (p.0@, p.1@))
                                    + tag_errors(m@.scope, crate::header_errors::errors_view(all.subrange(0, taken as int))),
                        decreases es@.len(),
                    {
                        let e = es.remove(0);
                        let ghost before = found@;
                        found.push((m.scope().copy(), ContextError::Header(e)));
                        proof {
                            assert(e == all[taken as int]);
                            assert(all.subrange(taken as int + 1, all.len() as int) =~= es@);
                            assert(crate::header_errors::errors_view(all.subrange(0, taken as int + 1))
                                =~= crate::header_errors::errors_view(all.subrange(0, taken as int)).push(e@));
                            assert(found@.map_values(|p: (Scope, ContextError)| (p.0@, p.1@))
                                =~= before.map_values(|p: (Scope, ContextError)| (p.0@, p.1@)).push((m@.scope, ContextErrorView::Header(e@))));
                            assert(tag_errors(m@.scope, crate::header_errors::errors_view(all.subrange(0, taken as int + 1)))
                                =~= tag_errors(m@.scope, crate::header_errors::errors_view(all.subrange(0, taken as int))).push((m@.scope, ContextErrorView::Header(e@))));
                        }
                        taken = taken + 1;
                    }
                    proof {
                        assert(all.subrange(0, taken as int) =~= all);
                    }
                },
            }
            i = i + 1;
        }
        let ghost before = self@;
        let ghost added = found@;
        self.errors.append(&mut found);
        proof {
            assert(self@.errors =~= before.errors + added.map_values(|p: (Scope, ContextError)| (p.0@, p.1@)));
        }
        Ok(())
    }
}


/// An import: a handle exposed, in a module, under another name.
#[derive(Debug)]
pub struct Alias {
    /// The handle imported, in its source scope.
    pub input: Handle,
    /// The exposed handle, in the new scope.
    pub output: Handle,
}

/// Each alias of `aliases` as the alias and the handle it stands for.
pub open spec fn alias_pairs(aliases: Seq<Alias>) -> Seq<(HandleView, HandleView)> {
    aliases.map_values(|a: Alias| (a.output@, a.input@))
}

impl Context {
    /// Declares the imports of a `use` directive in the module being compiled: each alias
    /// of `imports`, or, when `imports` names a module, everything that module exports.
    pub fn declare_use(&mut self, imports: Result<Vec<Alias>, Scope>)
        requires
            old(self)@.wf(),
            old(self)@.has_module(old(self)@.current_scope),
            imports matches Ok(v) ==> forall|i: int| 0 <= i < v@.len() ==> (#[trigger] v@[i]).output@.named() && v@[i].input@.named(),
        ensures
            match imports {
                Ok(v) => final(self)@ == old(self)@.after_aliases(alias_pairs(v@)),
                Err(s) => final(self)@ == old(self)@.after_glob(s@),
            },
            final(self)@.wf(),
            final(self)@.has_module(final(self)@.current_scope),
    {
        match imports {
            Err(module) => self.import_glob(module),
            Ok(aliases) => {
                let ghost start = self@;
                let ghost pairs = alias_pairs(aliases@);
                let mut i: usize = 0;
                proof {
                    assert(pairs.subrange(0, 0) =~= Seq::<(HandleView, HandleView)>::empty());
                }
                while i < aliases.len()
                    invariant
                        0 <= i <= aliases@.len(),
                        pairs == alias_pairs(aliases@),
                        forall|k: int| 0 <= k < aliases@.len() ==> (#[trigger] aliases@[k]).output@.named() && aliases@[k].input@.named(),
                        self@.wf(),
                        self@.has_module(self@.current_scope),
                        self@ == start.after_aliases(pairs.subrange(0, i as int)),
                    decreases aliases@.len() - i,
                {
                    proof {
                        let s = pairs.subrange(0, i as int + 1);
                        assert(s.drop_last() =~= pairs.subrange(0, i as int));
                        assert(s.last() == (aliases@[i as int].output@, aliases@[i as int].input@));
                    }
                    self.declare_alias(aliases[i].output.copy(), aliases[i].input.copy());
                    i = i + 1;
                }
                proof {
                    assert(pairs.subrange(0, i as int) =~= pairs);
                }
            },
        }
    }

    /// The name of the variable `identifier` stands for, when it was met while compiling;
    /// `None` for a variable made up during evaluation or not known here.
    pub fn variable_name(&self, identifier: Identifier) -> (r: Option<&str>)
        ensures
            match r {
                Some(name) => identifier.spec_kind() != IdentifierKind::Fresh
                    && identifier.spec_index() < self@.variables.len()
                    && name@ == self@.variables[identifier.spec_index() as int],
                None => identifier.spec_kind() == IdentifierKind::Fresh || identifier.spec_index() >= self@.variables.len(),
            },
    {
        let index = identifier.index();
        match identifier.kind() {
            IdentifierKind::Fresh => None,
            _ => if index < self.variables.len() {
                Some(self.variables[index].as_str())
            } else {
                None
            },
        }
    }
}

/// A name stands for one variable within a clause: asking for it again gives the same
/// identifier and changes nothing.
pub proof fn lemma_variable_is_stable(c: ContextView, name: Seq<char>)
    ensures
        c.with_variable(name).variable_index(name) == c.variable_index(name),
        c.with_variable(name).with_variable(name) == c.with_variable(name),
{
    match env_lookup(c.environment, name) {
        Some(_) => {},
        None => {
            let env2 = c.environment.push((name, c.variables.len() as usize));
            assert(env2.last().0 == name);
        },
    }
}

/// Where `env_lookup` finds a name, the environment has an entry of that name and index.
proof fn lemma_env_lookup_entry(env: Seq<(Seq<char>, usize)>, name: Seq<char>)
    ensures
        env_lookup(env, name) matches Some(i) ==> exists|k: int| 0 <= k < env.len() && #[trigger] env[k] == (name, i),
    decreases env.len(),
{
    if env.len() > 0 && env.last().0 != name {
        lemma_env_lookup_entry(env.drop_last(), name);
        if env_lookup(env.drop_last(), name) is Some {
            let i = env_lookup(env.drop_last(), name).unwrap();
            let k = choose|k: int| 0 <= k < env.len() - 1 && #[trigger] env.drop_last()[k] == (name, i);
            assert(env[k] == env.drop_last()[k]);
        }
    } else if env.len() > 0 {
        assert(env[env.len() - 1] == (name, env.last().1));
    }
}

/// A variable's name is recorded under its identifier: after `get_variable(name)`, the
/// name of the identifier it gives is `name`.
pub proof fn lemma_variable_name_is_recorded(c: ContextView, name: Seq<char>)
    requires
        c.wf(),
        c.variables.len() < usize::MAX,
    ensures
        c.variable_index(name) < c.with_variable(name).variables.len(),
        c.with_variable(name).variables[c.variable_index(name) as int] == name,
{
    lemma_env_lookup_entry(c.environment, name);
}

/// After the environment is reset, a name stands for a new variable: the next one.
pub proof fn lemma_reset_gives_new_variable(c: ContextView, name: Seq<char>)
    ensures
        (ContextView { environment: Seq::empty(), ..c }).variable_index(name) == c.variables.len() as usize,
{
}

/// Exporting a handle twice from a module reports the second export.
pub proof fn lemma_second_export_is_reported(c: ContextView, h: HandleView)
    requires
        c.wf(),
        c.has_module(c.current_scope),
    ensures
        c.after_export(h).after_export(h).errors == c.after_export(h).errors.push((c.current_scope, ContextErrorView::DuplicateExport(h))),
{
    let m = c.current_module();
    let m1 = ModuleHeaderView { exports: set_insert(m.exports, h), ..m };
    let c1 = c.after_export(h);
    let pos = c.position(c.current_scope);
    assert(module_scopes(c1.modules) =~= module_scopes(c.modules));
    assert(c1.position(c1.current_scope) == pos);
    assert(c1.current_module() == m1);
    crate::handle_set::lemma_set_insert_no_duplicates_contains(m.exports, h);
}


/// Whether module `m` declares `h` itself: defines it, or binds it to a native function.
pub open spec fn declares(m: ModuleHeaderView, h: HandleView) -> bool {
    m.definitions.contains(h) || m.natives.contains(h)
}

/// The first export like `h` of each module at `globs`, in order; `Err` when one of those
/// modules does not exist.
pub open spec fn glob_exports_like(mods: Seq<ModuleHeaderView>, globs: Seq<ScopeView>, h: HandleView) -> Result<Seq<HandleView>, ResolveErrorView>
    decreases globs.len(),
{
    if globs.len() == 0 {
        Ok(Seq::empty())
    } else {
        match glob_exports_like(mods, globs.drop_last(), h) {
            Err(e) => Err(e),
            Ok(prev) => match find_module(mods, globs.last()) {
                None => Err(ResolveErrorView::MissingModule(globs.last())),
                Some(gm) => Ok(prev + match first_like(gm.exports, h) {
                    Some(x) => seq![x],
                    None => Seq::<HandleView>::empty(),
                }),
            },
        }
    }
}

/// What a reference to `h` from another module is replaced by, and the problems reported
/// on the way, in at most `fuel` steps.
///
/// The module of `h` must export it; then a handle it declares stays as it is (`None`), an
/// alias is replaced by what its source resolves to, and any other handle by what the one
/// export like it of the glob imported modules resolves to. No such export leaves the
/// handle as it is; several are reported as ambiguous. `Err` when resolution meets a
/// missing module or a cycle of imports.
pub open spec fn resolve_reference(mods: Seq<ModuleHeaderView>, h: HandleView, fuel: nat) -> (Result<Option<HandleView>, ResolveErrorView>, Seq<ContextErrorView>)
    decreases fuel,
{
    if fuel == 0 {
        (Err(ResolveErrorView::TooDeep), Seq::empty())
    } else {
        match find_module(mods, module_of(h)) {
            Some(m) if m.exports.contains(h) => {
                if declares(m, h) {
                    (Ok(None), Seq::empty())
                } else if m.alias_of(h) is Some {
                    resolve_reference(mods, m.alias_of(h).unwrap(), (fuel - 1) as nat)
                } else {
                    match glob_exports_like(mods, m.globs, h) {
                        Err(e) => (Err(e), Seq::empty()),
                        Ok(candidates) => if candidates.len() == 0 {
                            (Ok(None), Seq::empty())
                        } else if candidates.len() == 1 {
                            resolve_reference(mods, candidates[0], (fuel - 1) as nat)
                        } else {
                            (Ok(None), seq![ContextErrorView::AmbiguousReference(h, candidates)])
                        },
                    }
                }
            },
            _ => (Ok(None), seq![ContextErrorView::UnresolvedHandle(h)]),
        }
    }
}

/// The view of a reference's replacement.
pub open spec fn replacement_view(r: Result<Option<Handle>, ResolveError>) -> Result<Option<HandleView>, ResolveErrorView> {
    match r {
        Ok(Some(h)) => Ok(Some(h@)),
        Ok(None) => Ok(None),
        Err(e) => Err(e@),
    }
}

/// Problems each reported in the module `s`.
pub open spec fn reported_in(s: ScopeView, es: Seq<ContextErrorView>) -> Seq<(ScopeView, ContextErrorView)> {
    es.map_values(|e: ContextErrorView| (s, e))
}

/// The first export like `h` of each module at `globs`; see [`glob_exports_like`].
fn glob_exports_like_exec(modules: &Vec<ModuleHeader>, globs: &Vec<Scope>, h: &Handle) -> (r: Result<Vec<Handle>, ResolveError>)
    requires
        all_wf(module_views(modules@)),
        h@.named(),
    ensures
        match r {
            Ok(v) => glob_exports_like(module_views(modules@), crate::handle_set::scope_views(globs@), h@) == Ok::<Seq<HandleView>, ResolveErrorView>(handle_views(v@))
                && crate::module_header::all_named(handle_views(v@)),
            Err(e) => glob_exports_like(module_views(modules@), crate::handle_set::scope_views(globs@), h@) == Err::<Seq<HandleView>, ResolveErrorView>(e@),
        },
{
    let ghost mods = module_views(modules@);
    let ghost gs = crate::handle_set::scope_views(globs@);
    let mut out: Vec<Handle> = Vec::new();
    let mut i: usize = 0;
    proof {
        assert(gs.subrange(0, 0) =~= Seq::<ScopeView>::empty());
        assert(handle_views(out@) =~= Seq::<HandleView>::empty());
    }
    while i < globs.len()
        invariant
            0 <= i <= globs@.len(),
            mods == module_views(modules@),
            gs == crate::handle_set::scope_views(globs@),
            all_wf(mods),
            h@.named(),
            glob_exports_like(mods, gs.subrange(0, i as int), h@) == Ok::<Seq<HandleView>, ResolveErrorView>(handle_views(out@)),
            crate::module_header::all_named(handle_views(out@)),
        decreases globs@.len() - i,
    {
        proof {
            let s = gs.subrange(0, i as int + 1);
            assert(s.drop_last() =~= gs.subrange(0, i as int));
            assert(s.last() == globs@[i as int]@);
        }
        match find_module_index(modules, &globs[i]) {
            None => {
                proof {
                    lemma_glob_exports_stop(mods, gs, h@, i as int + 1, ResolveErrorView::MissingModule(globs@[i as int]@));
                }
                return Err(ResolveError::MissingModule(globs[i].copy()));
            },
            Some(j) => {
                assert(mods[j as int] == modules@[j as int]@);
                assert(mods[j as int].wf());
                let exports = modules[j].exports();
                let ghost before = out@;
                match crate::resolution::first_like_index(exports, h) {
                    Some(k) => {
                        assert(mods[j as int].exports[k as int].named());
                        out.push(exports[k].copy());
                        proof {
                            assert(handle_views(out@) =~= handle_views(before) + seq![exports@[k as int]@]);
                            assert forall|q: int| 0 <= q < handle_views(out@).len() implies (#[trigger] handle_views(out@)[q]).named() by {
                                if q < before.len() {
                                    assert(handle_views(out@)[q] == handle_views(before)[q]);
                                }
                            }
                        }
                    },
                    None => {
                        proof {
                            assert(handle_views(out@) =~= handle_views(before) + Seq::<HandleView>::empty());
                        }
                    },
                }
            },
        }
        i = i + 1;
    }
    proof {
        assert(gs.subrange(0, i as int) =~= gs);
    }
    Ok(out)
}

proof fn lemma_glob_exports_stop(mods: Seq<ModuleHeaderView>, gs: Seq<ScopeView>, h: HandleView, k: int, e: ResolveErrorView)
    requires
        0 <= k <= gs.len(),
        glob_exports_like(mods, gs.subrange(0, k), h) == Err::<Seq<HandleView>, ResolveErrorView>(e),
    ensures
        glob_exports_like(mods, gs, h) == Err::<Seq<HandleView>, ResolveErrorView>(e),
    decreases gs.len(),
{
    if k == gs.len() {
        assert(gs.subrange(0, k) =~= gs);
    } else {
        assert(gs.drop_last().subrange(0, k) =~= gs.subrange(0, k));
        lemma_glob_exports_stop(mods, gs.drop_last(), h, k, e);
    }
}

impl Context {
    /// Replaces a reference to `handle` from another module, in at most `fuel` steps; see
    /// [`resolve_reference`]. Its problems are reported in the module being compiled.
    pub fn resolve_inner(&mut self, handle: &Handle, fuel: u64) -> (r: Result<Option<Handle>, ResolveError>)
        requires
            old(self)@.wf(),
            handle@.named(),
        ensures
            replacement_view(r) == resolve_reference(old(self)@.modules, handle@, fuel as nat).0,
            final(self)@ == (ContextView {
                errors: old(self)@.errors + reported_in(old(self)@.current_scope, resolve_reference(old(self)@.modules, handle@, fuel as nat).1),
                ..old(self)@
            }),
            final(self)@.wf(),
            r matches Ok(Some(h)) ==> h@.named(),
        decreases fuel,
    {
        let ghost mods = self@.modules;
        if fuel == 0 {
            proof {
                assert(self@.errors + reported_in(self@.current_scope, Seq::<ContextErrorView>::empty()) =~= self@.errors);
            }
            return Err(ResolveError::TooDeep);
        }
        let module = handle.module();
        let found = match find_module_index(&self.modules, &module) {
            Some(j) => if crate::handle_set::handles_contain(self.modules[j].exports(), handle) { Some(j) } else { None },
            None => None,
        };
        match found {
            None => {
                let ghost before = self@;
                self.error_unresolved_handle(handle);
                proof {
                    assert(self@.errors =~= before.errors + reported_in(before.current_scope, seq![ContextErrorView::UnresolvedHandle(handle@)]));
                }
                Ok(None)
            },
            Some(j) => {
                assert(mods[j as int] == self.modules@[j as int]@);
                assert(mods[j as int].wf());
                let m = &self.modules[j];
                if crate::handle_set::handles_contain(m.definitions(), handle) || crate::handle_set::handles_contain(m.natives(), handle) {
                    proof {
                        assert(self@.errors + reported_in(self@.current_scope, Seq::<ContextErrorView>::empty()) =~= self@.errors);
                    }
                    return Ok(None);
                }
                match crate::handle_set::find_key(m.aliases(), handle) {
                    Some(k) => {
                        let ghost keys = map_keys(mods[j as int].aliases);
                        proof {
                            assert(keys[k as int] == handle@);
                            lemma_unique_index_of(keys, k as int);
                            assert(mods[j as int].alias_of(handle@) == Some(mods[j as int].aliases[k as int].1));
                            assert(crate::handle_set::map_targets(mods[j as int].aliases)[k as int] == mods[j as int].aliases[k as int].1);
                        }
                        let source = m.aliases()[k].1.copy();
                        self.resolve_inner(&source, fuel - 1)
                    },
                    None => {
                        match glob_exports_like_exec(&self.modules, m.globbed_modules(), handle) {
                            Err(e) => {
                                proof {
                                    assert(self@.errors + reported_in(self@.current_scope, Seq::<ContextErrorView>::empty()) =~= self@.errors);
                                }
                                Err(e)
                            },
                            Ok(candidates) => {
                                if candidates.len() == 0 {
                                    proof {
                                        assert(self@.errors + reported_in(self@.current_scope, Seq::<ContextErrorView>::empty()) =~= self@.errors);
                                    }
                                    Ok(None)
                                } else if candidates.len() == 1 {
                                    assert(handle_views(candidates@)[0] == candidates@[0]@);
                                    self.resolve_inner(&candidates[0], fuel - 1)
                                } else {
                                    let ghost before = self@;
                                    self.error_ambiguous_reference(handle, candidates);
                                    proof {
                                        assert(self@.errors =~= before.errors + reported_in(
                                            before.current_scope,
                                            seq![ContextErrorView::AmbiguousReference(handle@, handle_views(candidates@))],
                                        ));
                                    }
                                    Ok(None)
                                }
                            },
                        }
                    },
                }
            },
        }
    }

    /// What a reference to `handle` from the module being compiled is replaced by: nothing
    /// when the module declares the handle itself, else as [`Context::resolve_inner`].
    pub fn resolve_handle(&mut self, handle: &Handle) -> (r: Result<Option<Handle>, ResolveError>)
        requires
            old(self)@.wf(),
            old(self)@.has_module(old(self)@.current_scope),
            handle@.named(),
        ensures
            ({
                let here = module_of(handle@) == old(self)@.current_scope && declares(old(self)@.current_module(), handle@);
                if here {
                    r matches Ok(None) && final(self)@ == old(self)@
                } else {
                    &&& replacement_view(r) == resolve_reference(old(self)@.modules, handle@, crate::resolution::resolve_depth(old(self)@.modules)).0
                    &&& final(self)@ == (ContextView {
                        errors: old(self)@.errors + reported_in(
                            old(self)@.current_scope,
                            resolve_reference(old(self)@.modules, handle@, crate::resolution::resolve_depth(old(self)@.modules)).1,
                        ),
                        ..old(self)@
                    })
                }
            }),
            final(self)@.wf(),
    {
        let module = handle.module();
        if module.same(&self.current_scope) {
            let i = self.current_index();
            let m = &self.modules[i];
            if crate::handle_set::handles_contain(m.definitions(), handle) || crate::handle_set::handles_contain(m.natives(), handle) {
                return Ok(None);
            }
        }
        let depth = crate::resolution::resolve_depth_exec(self.modules.as_slice());
        self.resolve_inner(handle, depth)
    }
}


/// The scope that `prefix`, written in module `current`, stands for; `None` when it climbs
/// above the root of the program.
pub open spec fn prefix_scope(prefix: ScopePrefix, current: ScopeView) -> Option<ScopeView> {
    match prefix {
        ScopePrefix::Lib(lib) => Some(ScopeView { lib: Some(lib), path: Seq::empty() }),
        ScopePrefix::Root => Some(ScopeView { lib: None, path: Seq::empty() }),
        ScopePrefix::Up(levels) => if levels <= current.path.len() {
            Some(ScopeView { lib: current.lib, path: current.path.subrange(0, current.path.len() - levels) })
        } else {
            None
        },
    }
}

impl Context {
    /// The scope written `text`, made of `prefix` (none: the module being compiled) and
    /// then the atoms of `path`. When the prefix climbs above the root of the program, it
    /// is reported and there is no scope.
    pub fn scope_of(&mut self, prefix: Option<ScopePrefix>, path: &[Atom], text: &str) -> (r: Option<Scope>)
        ensures
            ({
                let base = match prefix {
                    None => Some(old(self)@.current_scope),
                    Some(p) => prefix_scope(p, old(self)@.current_scope),
                };
                match base {
                    None => r is None && final(self)@ == old(self)@.report(ContextErrorView::NegativeScope(text@)),
                    Some(s) => r matches Some(x) && x@ == (ScopeView { lib: s.lib, path: s.path + path@ }) && final(self)@ == old(self)@,
                }
            }),
    {
        let base = match prefix {
            None => Some(self.current_scope.copy()),
            Some(p) => Scope::from_prefix(p, &self.current_scope),
        };
        match base {
            None => {
                self.error_negative_scope(text);
                None
            },
            Some(mut scope) => {
                let ghost start = scope@;
                let mut i: usize = 0;
                while i < path.len()
                    invariant
                        0 <= i <= path@.len(),
                        scope@ == (ScopeView { lib: start.lib, path: start.path + path@.subrange(0, i as int) }),
                    decreases path@.len() - i,
                {
                    scope.push(path[i]);
                    i = i + 1;
                    proof {
                        assert(start.path + path@.subrange(0, i as int) =~= (start.path + path@.subrange(0, i as int - 1)).push(path@[i as int - 1]));
                    }
                }
                proof {
                    assert(path@.subrange(0, i as int) =~= path@);
                }
                Some(scope)
            },
        }
    }
}

} // verus!
