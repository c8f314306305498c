//! The checks made on a module header once every module of the program is known.
use crate::handle::{Handle, HandleView};
use crate::handle_set::{handle_views, scope_views, pair_views, handles_contain, find_key, map_keys, map_targets, lemma_unique_index_of};
use crate::module_header::{ModuleHeader, ModuleHeaderView, all_named};
use crate::resolution::{
    ResolveError, ResolveErrorView, resolve_in, find_module, module_of, module_views, all_wf, is_fatal,
    find_module_index, resolve_depth, resolve_depth_exec,
};
use crate::scope::{Scope, ScopeView};
use vstd::prelude::*;

verus! {

/// The handle of the same predicate seen from the root of the program.
pub open spec fn head_view(h: HandleView) -> HandleView {
    HandleView { scope: ScopeView { lib: None, path: seq![h.name()] }, arity: h.arity }
}

/// A problem found in a module header, as a mathematical value.
pub ghost enum HeaderErrorView {
    UnresolvedGlob(ScopeView),
    NativeNotBound(HandleView),
    NativeImplemented(HandleView),
    NativeImported(HandleView),
    NativeMutable(HandleView),
    NativeIncomplete(HandleView),
    ExportNotFound(HandleView),
    AliasMutable(HandleView),
    AliasIncomplete(HandleView),
    DefinitionConflict(HandleView, HandleView, Option<HandleView>),
    AliasedMultiple(HandleView, Seq<HandleView>),
    Unresolvable(ResolveErrorView),
}

/// A problem found in a module header.
#[derive(Debug)]
pub enum HeaderError {
    /// A glob import names a module that does not exist.
    UnresolvedGlob(Scope),
    /// A native function is declared but the program binds no function to it.
    NativeNotBound(Handle),
    /// A native function is also defined by rules.
    NativeImplemented(Handle),
    /// A native function is also imported.
    NativeImported(Handle),
    /// A native function is declared mutable.
    NativeMutable(Handle),
    /// A native function is declared incomplete.
    NativeIncomplete(Handle),
    /// An exported predicate cannot be found (its head is given).
    ExportNotFound(Handle),
    /// An alias is declared mutable (its head is given).
    AliasMutable(Handle),
    /// An alias is declared incomplete (its head is given).
    AliasIncomplete(Handle),
    /// A predicate is defined here and imported from a module where it is complete: the head
    /// of the definition, the imported handle, and the head of the alias when its name or
    /// arity differ from those of the imported handle.
    DefinitionConflict(Handle, Handle, Option<Handle>),
    /// A handle is imported under several aliases: the handle, and its aliases.
    AliasedMultiple(Handle, Vec<Handle>),
    /// An imported handle cannot be resolved.
    Unresolvable(ResolveError),
}

impl View for HeaderError {
    type V = HeaderErrorView;

    open spec fn view(&self) -> HeaderErrorView {
        match self {
            HeaderError::UnresolvedGlob(s) => HeaderErrorView::UnresolvedGlob(s@),
            HeaderError::NativeNotBound(h) => HeaderErrorView::NativeNotBound(h@),
            HeaderError::NativeImplemented(h) => HeaderErrorView::NativeImplemented(h@),
            HeaderError::NativeImported(h) => HeaderErrorView::NativeImported(h@),
            HeaderError::NativeMutable(h) => HeaderErrorView::NativeMutable(h@),
            HeaderError::NativeIncomplete(h) => HeaderErrorView::NativeIncomplete(h@),
            HeaderError::ExportNotFound(h) => HeaderErrorView::ExportNotFound(h@),
            HeaderError::AliasMutable(h) => HeaderErrorView::AliasMutable(h@),
            HeaderError::AliasIncomplete(h) => HeaderErrorView::AliasIncomplete(h@),
            HeaderError::DefinitionConflict(d, v, a) => HeaderErrorView::DefinitionConflict(
                d@,
                v@,
                match a {
                    Some(a) => Some(a@),
                    None => None,
                },
            ),
            HeaderError::AliasedMultiple(h, keys) => HeaderErrorView::AliasedMultiple(h@, handle_views(keys@)),
            HeaderError::Unresolvable(e) => HeaderErrorView::Unresolvable(e@),
        }
    }
}

/// The views of a sequence of header errors.
pub open spec fn errors_view(v: Seq<HeaderError>) -> Seq<HeaderErrorView> {
    v.map_values(|e: HeaderError| e@)
}

/// The errors of the items of `items`, in order: those of each item given by `f`.
pub open spec fn concat_map<T>(items: Seq<T>, f: spec_fn(T) -> Seq<HeaderErrorView>) -> Seq<HeaderErrorView>
    decreases items.len(),
{
    if items.len() == 0 {
        Seq::empty()
    } else {
        concat_map(items.drop_last(), f) + f(items.last())
    }
}

/// The error of a glob import of a module that does not exist.
pub open spec fn glob_error(mods: Seq<ModuleHeaderView>, g: ScopeView) -> Seq<HeaderErrorView> {
    if find_module(mods, g) is None {
        seq![HeaderErrorView::UnresolvedGlob(g)]
    } else {
        Seq::empty()
    }
}

/// The errors of a native function: that it is not bound, and the first other use of its
/// handle.
pub open spec fn native_error(m: ModuleHeaderView, bound: Seq<HandleView>, n: HandleView) -> Seq<HeaderErrorView> {
    let unbound: Seq<HeaderErrorView> = if bound.contains(n) {
        Seq::empty()
    } else {
        seq![HeaderErrorView::NativeNotBound(n)]
    };
    let misuse: Seq<HeaderErrorView> = if m.definitions.contains(n) {
        seq![HeaderErrorView::NativeImplemented(n)]
    } else if m.alias_of(n) is Some {
        seq![HeaderErrorView::NativeImported(n)]
    } else if m.mutables.contains(n) {
        seq![HeaderErrorView::NativeMutable(n)]
    } else if m.incompletes.contains(n) {
        seq![HeaderErrorView::NativeIncomplete(n)]
    } else {
        Seq::empty()
    };
    unbound + misuse
}

/// The error of an alias declared mutable.
pub open spec fn mutable_error(m: ModuleHeaderView, h: HandleView) -> Seq<HeaderErrorView> {
    if m.alias_of(h) is Some {
        seq![HeaderErrorView::AliasMutable(head_view(h))]
    } else {
        Seq::empty()
    }
}

/// The error of an alias declared incomplete.
pub open spec fn incomplete_error(m: ModuleHeaderView, h: HandleView) -> Seq<HeaderErrorView> {
    if m.alias_of(h) is Some {
        seq![HeaderErrorView::AliasIncomplete(head_view(h))]
    } else {
        Seq::empty()
    }
}

/// The error of a predicate both defined here and imported from a module in which it is
/// not declared incomplete.
pub open spec fn definition_error(mods: Seq<ModuleHeaderView>, m: ModuleHeaderView, d: HandleView) -> Seq<HeaderErrorView> {
    match m.alias_of(d) {
        None => Seq::empty(),
        Some(v) => {
            let incomplete = match find_module(mods, module_of(v)) {
                Some(vm) => vm.incompletes.contains(v),
                None => false,
            };
            if incomplete {
                Seq::empty()
            } else {
                seq![HeaderErrorView::DefinitionConflict(
                    head_view(d),
                    v,
                    if d.like(v) { None } else { Some(head_view(d)) },
                )]
            }
        },
    }
}

/// The errors of the exports of `m` (the first of `exports`, in order): those that cannot
/// be resolved from the module itself. A fatal error of resolution stops the checks.
pub open spec fn export_errors(mods: Seq<ModuleHeaderView>, m: ModuleHeaderView, exports: Seq<HandleView>) -> Result<Seq<HeaderErrorView>, ResolveErrorView>
    decreases exports.len(),
{
    if exports.len() == 0 {
        Ok(Seq::empty())
    } else {
        match export_errors(mods, m, exports.drop_last()) {
            Err(e) => Err(e),
            Ok(prev) => match resolve_in(mods, m, exports.last(), m.scope, resolve_depth(mods)) {
                Ok(_) => Ok(prev),
                Err(x) => if is_fatal(x) {
                    Err(x)
                } else {
                    Ok(prev.push(HeaderErrorView::ExportNotFound(head_view(exports.last()))))
                },
            },
        }
    }
}

/// The aliases of `aliases` that stand for `v`, in order.
pub open spec fn keys_with_value(aliases: Seq<(HandleView, HandleView)>, v: HandleView) -> Seq<HandleView>
    decreases aliases.len(),
{
    if aliases.len() == 0 {
        Seq::empty()
    } else if aliases.last().1 == v {
        keys_with_value(aliases.drop_last(), v).push(aliases.last().0)
    } else {
        keys_with_value(aliases.drop_last(), v)
    }
}

/// What `v`, imported into `m`, resolves to in its own module, seen from `m`.
pub open spec fn resolve_import(mods: Seq<ModuleHeaderView>, m: ModuleHeaderView, v: HandleView) -> Result<HandleView, ResolveErrorView> {
    match find_module(mods, module_of(v)) {
        None => Err(ResolveErrorView::MissingModule(module_of(v))),
        Some(vm) => resolve_in(mods, vm, v, m.scope, resolve_depth(mods)),
    }
}

/// The errors of the imports of `m` (the first of `pairs`, in order), with the imported
/// handles already reported as aliased several times: each imported handle must resolve,
/// and must be imported under one alias only. A fatal error of resolution stops the checks.
pub open spec fn alias_errors(mods: Seq<ModuleHeaderView>, m: ModuleHeaderView, pairs: Seq<(HandleView, HandleView)>) -> Result<(Seq<HandleView>, Seq<HeaderErrorView>), ResolveErrorView>
    decreases pairs.len(),
{
    if pairs.len() == 0 {
        Ok((Seq::empty(), Seq::empty()))
    } else {
        match alias_errors(mods, m, pairs.drop_last()) {
            Err(e) => Err(e),
            Ok((reported, errs)) => {
                let v = pairs.last().1;
                if reported.contains(v) {
                    Ok((reported, errs))
                } else {
                    let r = resolve_import(mods, m, v);
                    if r is Err && is_fatal(r->Err_0) {
                        Err(r->Err_0)
                    } else {
                        let errs2 = match r {
                            Ok(_) => errs,
                            Err(x) => errs.push(HeaderErrorView::Unresolvable(x)),
                        };
                        let keys = keys_with_value(m.aliases, v);
                        if keys.len() != 1 {
                            Ok((reported.push(v), errs2.push(HeaderErrorView::AliasedMultiple(v, keys))))
                        } else {
                            Ok((reported, errs2))
                        }
                    }
                }
            },
        }
    }
}

/// The problems of module `m`, given all the modules of the program and the native
/// functions the program binds, in order: glob imports of missing modules; natives that are
/// not bound or are also defined, imported, mutable or incomplete; exports that cannot be
/// found; aliases declared mutable or incomplete; definitions that conflict with imports;
/// imports that cannot be resolved or are aliased several times. `Err` when resolution meets
/// a missing module or a cycle of imports.
pub open spec fn header_errors(mods: Seq<ModuleHeaderView>, m: ModuleHeaderView, bound: Seq<HandleView>) -> Result<Seq<HeaderErrorView>, ResolveErrorView> {
    let first = concat_map(m.globs, glob_error_fn(mods)) + concat_map(m.natives, native_error_fn(m, bound));
    match export_errors(mods, m, m.exports) {
        Err(e) => Err(e),
        Ok(exports) => {
            let middle = concat_map(m.mutables, mutable_error_fn(m))
                + concat_map(m.incompletes, incomplete_error_fn(m))
                + concat_map(m.definitions, definition_error_fn(mods, m));
            match alias_errors(mods, m, m.aliases) {
                Err(e) => Err(e),
                Ok((_, aliases)) => Ok(first + exports + middle + aliases),
            }
        },
    }
}


/// [`glob_error`] as a function of the glob.
pub open spec fn glob_error_fn(mods: Seq<ModuleHeaderView>) -> spec_fn(ScopeView) -> Seq<HeaderErrorView> {
    |g: ScopeView| glob_error(mods, g)
}

/// [`native_error`] as a function of the native.
pub open spec fn native_error_fn(m: ModuleHeaderView, bound: Seq<HandleView>) -> spec_fn(HandleView) -> Seq<HeaderErrorView> {
    |n: HandleView| native_error(m, bound, n)
}

/// [`mutable_error`] as a function of the handle.
pub open spec fn mutable_error_fn(m: ModuleHeaderView) -> spec_fn(HandleView) -> Seq<HeaderErrorView> {
    |h: HandleView| mutable_error(m, h)
}

/// [`incomplete_error`] as a function of the handle.
pub open spec fn incomplete_error_fn(m: ModuleHeaderView) -> spec_fn(HandleView) -> Seq<HeaderErrorView> {
    |h: HandleView| incomplete_error(m, h)
}

/// [`definition_error`] as a function of the definition.
pub open spec fn definition_error_fn(mods: Seq<ModuleHeaderView>, m: ModuleHeaderView) -> spec_fn(HandleView) -> Seq<HeaderErrorView> {
    |d: HandleView| definition_error(mods, m, d)
}

proof fn lemma_export_errors_stop(mods: Seq<ModuleHeaderView>, m: ModuleHeaderView, s: Seq<HandleView>, k: int, e: ResolveErrorView)
    requires
        0 <= k <= s.len(),
        export_errors(mods, m, s.subrange(0, k)) == Err::<Seq<HeaderErrorView>, ResolveErrorView>(e),
    ensures
        export_errors(mods, m, s) == Err::<Seq<HeaderErrorView>, ResolveErrorView>(e),
    decreases s.len(),
{
    if k == s.len() {
        assert(s.subrange(0, k) =~= s);
    } else {
        assert(s.drop_last().subrange(0, k) =~= s.subrange(0, k));
        lemma_export_errors_stop(mods, m, s.drop_last(), k, e);
    }
}

proof fn lemma_concat_map_step<T>(items: Seq<T>, i: int, f: spec_fn(T) -> Seq<HeaderErrorView>)
    requires
        0 <= i < items.len(),
    ensures
        concat_map(items.subrange(0, i + 1), f) == concat_map(items.subrange(0, i), f) + f(items[i]),
{
    let s = items.subrange(0, i + 1);
    assert(s.drop_last() =~= items.subrange(0, i));
    assert(s.last() == items[i]);
}

proof fn lemma_errors_view_append(a: Seq<HeaderError>, b: Seq<HeaderError>)
    ensures
        errors_view(a + b) == errors_view(a) + errors_view(b),
{
    assert(errors_view(a + b) =~= errors_view(a) + errors_view(b));
}

proof fn lemma_errors_view_push(a: Seq<HeaderError>, e: HeaderError)
    ensures
        errors_view(a.push(e)) == errors_view(a).push(e@),
        errors_view(a.push(e)) == errors_view(a) + seq![e@],
{
    assert(errors_view(a.push(e)) =~= errors_view(a).push(e@));
    assert(errors_view(a.push(e)) =~= errors_view(a) + seq![e@]);
}

/// Whether a resolution error is fatal; see [`is_fatal`].
fn is_fatal_exec(e: &ResolveError) -> (r: bool)
    ensures
        r == is_fatal(e@),
{
    match e {
        ResolveError::MissingModule(..) => true,
        ResolveError::TooDeep => true,
        _ => false,
    }
}

impl ModuleHeader {
    fn glob_errors(&self, modules: &[ModuleHeader]) -> (r: Vec<HeaderError>)
        ensures
            errors_view(r@) == concat_map(self@.globs, glob_error_fn(module_views(modules@))),
    {
        let ghost mods = module_views(modules@);
        let globs = self.globbed_modules();
        let mut out: Vec<HeaderError> = Vec::new();
        let mut i: usize = 0;
        proof {
            assert(errors_view(out@) =~= concat_map(self@.globs.subrange(0, 0), glob_error_fn(mods)));
        }
        while i < globs.len()
            invariant
                0 <= i <= globs@.len(),
                scope_views(globs@) == self@.globs,
                mods == module_views(modules@),
                errors_view(out@) == concat_map(self@.globs.subrange(0, i as int), glob_error_fn(mods)),
            decreases globs@.len() - i,
        {
            proof {
                lemma_concat_map_step(self@.globs, i as int, glob_error_fn(mods));
                assert(self@.globs[i as int] == globs@[i as int]@);
            }
            let ghost before = out@;
            if find_module_index(modules, &globs[i]).is_none() {
                out.push(HeaderError::UnresolvedGlob(globs[i].copy()));
                proof {
                    lemma_errors_view_push(before, out@.last());
                }
            } else {
                assert(errors_view(out@) =~= errors_view(before) + Seq::<HeaderErrorView>::empty());
            }
            i = i + 1;
        }
        proof {
            assert(self@.globs.subrange(0, i as int) =~= self@.globs);
        }
        out
    }

    fn native_errors(&self, bound_natives: &Vec<Handle>) -> (r: Vec<HeaderError>)
        requires
            self@.wf(),
        ensures
            errors_view(r@) == concat_map(self@.natives, native_error_fn(self@, handle_views(bound_natives@))),
    {
        let ghost bound = handle_views(bound_natives@);
        let natives = self.natives();
        let mut out: Vec<HeaderError> = Vec::new();
        let mut i: usize = 0;
        proof {
            assert(errors_view(out@) =~= concat_map(self@.natives.subrange(0, 0), native_error_fn(self@, bound)));
        }
        while i < natives.len()
            invariant
                0 <= i <= natives@.len(),
                handle_views(natives@) == self@.natives,
                bound == handle_views(bound_natives@),
                errors_view(out@) == concat_map(self@.natives.subrange(0, i as int), native_error_fn(self@, bound)),
            decreases natives@.len() - i,
        {
            proof {
                lemma_concat_map_step(self@.natives, i as int, native_error_fn(self@, bound));
                assert(self@.natives[i as int] == natives@[i as int]@);
            }
            let ghost before = out@;
            let n = &natives[i];
            if !handles_contain(bound_natives, n) {
                out.push(HeaderError::NativeNotBound(n.copy()));
            }
            let ghost middle = out@;
            if handles_contain(self.definitions(), n) {
                out.push(HeaderError::NativeImplemented(n.copy()));
            } else if find_key(self.aliases(), n).is_some() {
                out.push(HeaderError::NativeImported(n.copy()));
            } else if handles_contain(self.mutables(), n) {
                out.push(HeaderError::NativeMutable(n.copy()));
            } else if handles_contain(self.incompletes(), n) {
                out.push(HeaderError::NativeIncomplete(n.copy()));
            }
            proof {
                assert(errors_view(middle) =~= errors_view(before) + (if bound.contains(n@) { Seq::<HeaderErrorView>::empty() } else { seq![HeaderErrorView::NativeNotBound(n@)] }));
                assert(errors_view(out@) =~= errors_view(before) + native_error(self@, bound, n@));
            }
            i = i + 1;
        }
        proof {
            assert(self@.natives.subrange(0, i as int) =~= self@.natives);
        }
        out
    }

    fn export_errors(&self, modules: &[ModuleHeader]) -> (r: Result<Vec<HeaderError>, ResolveError>)
        requires
            self@.wf(),
            all_wf(module_views(modules@)),
        ensures
            match r {
                Ok(v) => export_errors(module_views(modules@), self@, self@.exports) == Ok::<Seq<HeaderErrorView>, ResolveErrorView>(errors_view(v@)),
                Err(e) => export_errors(module_views(modules@), self@, self@.exports) == Err::<Seq<HeaderErrorView>, ResolveErrorView>(e@),
            },
    {
        let ghost mods = module_views(modules@);
        let depth = resolve_depth_exec(modules);
        let exports = self.exports();
        let mut out: Vec<HeaderError> = Vec::new();
        let mut i: usize = 0;
        proof {
            assert(self@.exports.subrange(0, 0) =~= Seq::<HandleView>::empty());
            assert(errors_view(out@) =~= Seq::<HeaderErrorView>::empty());
        }
        while i < exports.len()
            invariant
                0 <= i <= exports@.len(),
                handle_views(exports@) == self@.exports,
                mods == module_views(modules@),
                depth as nat == resolve_depth(mods),
                self@.wf(),
                all_wf(mods),
                export_errors(mods, self@, self@.exports.subrange(0, i as int)) == Ok::<Seq<HeaderErrorView>, ResolveErrorView>(errors_view(out@)),
            decreases exports@.len() - i,
        {
            let ghost s = self@.exports.subrange(0, i as int + 1);
            proof {
                assert(s.drop_last() =~= self@.exports.subrange(0, i as int));
                assert(s.last() == exports@[i as int]@);
                assert(self@.exports[i as int].named());
            }
            let e = &exports[i];
            match self.resolve_with(e, self.scope(), modules, depth) {
                Ok(_) => {},
                Err(x) => {
                    if is_fatal_exec(&x) {
                        proof {
                            lemma_export_errors_stop(mods, self@, self@.exports, i as int + 1, x@);
                        }
                        return Err(x);
                    }
                    let ghost before = out@;
                    out.push(HeaderError::ExportNotFound(e.head()));
                    proof {
                        lemma_errors_view_push(before, out@.last());
                    }
                },
            }
            i = i + 1;
        }
        proof {
            assert(self@.exports.subrange(0, i as int) =~= self@.exports);
        }
        Ok(out)
    }

    fn mutable_errors(&self) -> (r: Vec<HeaderError>)
        requires
            self@.wf(),
        ensures
            errors_view(r@) == concat_map(self@.mutables, mutable_error_fn(self@)),
    {
        let mutables = self.mutables();
        let mut out: Vec<HeaderError> = Vec::new();
        let mut i: usize = 0;
        proof {
            assert(errors_view(out@) =~= concat_map(self@.mutables.subrange(0, 0), mutable_error_fn(self@)));
        }
        while i < mutables.len()
            invariant
                0 <= i <= mutables@.len(),
                handle_views(mutables@) == self@.mutables,
                self@.wf(),
                errors_view(out@) == concat_map(self@.mutables.subrange(0, i as int), mutable_error_fn(self@)),
            decreases mutables@.len() - i,
        {
            proof {
                lemma_concat_map_step(self@.mutables, i as int, mutable_error_fn(self@));
                assert(self@.mutables[i as int] == mutables@[i as int]@);
                assert(self@.mutables[i as int].named());
            }
            let ghost before = out@;
            if find_key(self.aliases(), &mutables[i]).is_some() {
                out.push(HeaderError::AliasMutable(mutables[i].head()));
                proof {
                    lemma_errors_view_push(before, out@.last());
                }
            } else {
                assert(errors_view(out@) =~= errors_view(before) + Seq::<HeaderErrorView>::empty());
            }
            i = i + 1;
        }
        proof {
            assert(self@.mutables.subrange(0, i as int) =~= self@.mutables);
        }
        out
    }

    fn incomplete_errors(&self) -> (r: Vec<HeaderError>)
        requires
            self@.wf(),
        ensures
            errors_view(r@) == concat_map(self@.incompletes, incomplete_error_fn(self@)),
    {
        let incompletes = self.incompletes();
        let mut out: Vec<HeaderError> = Vec::new();
        let mut i: usize = 0;
        proof {
            assert(errors_view(out@) =~= concat_map(self@.incompletes.subrange(0, 0), incomplete_error_fn(self@)));
        }
        while i < incompletes.len()
            invariant
                0 <= i <= incompletes@.len(),
                handle_views(incompletes@) == self@.incompletes,
                self@.wf(),
                errors_view(out@) == concat_map(self@.incompletes.subrange(0, i as int), incomplete_error_fn(self@)),
            decreases incompletes@.len() - i,
        {
            proof {
                lemma_concat_map_step(self@.incompletes, i as int, incomplete_error_fn(self@));
                assert(self@.incompletes[i as int] == incompletes@[i as int]@);
                assert(self@.incompletes[i as int].named());
            }
            let ghost before = out@;
            if find_key(self.aliases(), &incompletes[i]).is_some() {
                out.push(HeaderError::AliasIncomplete(incompletes[i].head()));
                proof {
                    lemma_errors_view_push(before, out@.last());
                }
            } else {
                assert(errors_view(out@) =~= errors_view(before) + Seq::<HeaderErrorView>::empty());
            }
            i = i + 1;
        }
        proof {
            assert(self@.incompletes.subrange(0, i as int) =~= self@.incompletes);
        }
        out
    }

    fn definition_errors(&self, modules: &[ModuleHeader]) -> (r: Vec<HeaderError>)
        requires
            self@.wf(),
            all_wf(module_views(modules@)),
        ensures
            errors_view(r@) == concat_map(self@.definitions, definition_error_fn(module_views(modules@), self@)),
    {
        let ghost mods = module_views(modules@);
        let definitions = self.definitions();
        let mut out: Vec<HeaderError> = Vec::new();
        let mut i: usize = 0;
        proof {
            assert(errors_view(out@) =~= concat_map(self@.definitions.subrange(0, 0), definition_error_fn(mods, self@)));
        }
        while i < definitions.len()
            invariant
                0 <= i <= definitions@.len(),
                handle_views(definitions@) == self@.definitions,
                mods == module_views(modules@),
                self@.wf(),
                all_wf(mods),
                errors_view(out@) == concat_map(self@.definitions.subrange(0, i as int), definition_error_fn(mods, self@)),
            decreases definitions@.len() - i,
        {
            proof {
                lemma_concat_map_step(self@.definitions, i as int, definition_error_fn(mods, self@));
                assert(self@.definitions[i as int] == definitions@[i as int]@);
                assert(self@.definitions[i as int].named());
            }
            let ghost before = out@;
            let d = &definitions[i];
            match find_key(self.aliases(), d) {
                None => {
                    assert(errors_view(out@) =~= errors_view(before) + Seq::<HeaderErrorView>::empty());
                },
                Some(k) => {
                    let ghost keys = map_keys(self@.aliases);
                    proof {
                        assert(keys[k as int] == d@);
                        lemma_unique_index_of(keys, k as int);
                        assert(self@.alias_of(d@) == Some(self@.aliases[k as int].1));
                        assert(map_targets(self@.aliases)[k as int] == self@.aliases[k as int].1);
                    }
                    let v = &self.aliases()[k].1;
                    let incomplete = match find_module_index(modules, &v.module()) {
                        Some(j) => handles_contain(modules[j].incompletes(), v),
                        None => false,
                    };
                    if !incomplete {
                        let alias = if d.like(v) { None } else { Some(d.head()) };
                        out.push(HeaderError::DefinitionConflict(d.head(), v.copy(), alias));
                        proof {
                            lemma_errors_view_push(before, out@.last());
                        }
                    } else {
                        assert(errors_view(out@) =~= errors_view(before) + Seq::<HeaderErrorView>::empty());
                    }
                },
            }
            i = i + 1;
        }
        proof {
            assert(self@.definitions.subrange(0, i as int) =~= self@.definitions);
        }
        out
    }
}


proof fn lemma_alias_errors_stop(mods: Seq<ModuleHeaderView>, m: ModuleHeaderView, s: Seq<(HandleView, HandleView)>, k: int, e: ResolveErrorView)
    requires
        0 <= k <= s.len(),
        alias_errors(mods, m, s.subrange(0, k)) == Err::<(Seq<HandleView>, Seq<HeaderErrorView>), ResolveErrorView>(e),
    ensures
        alias_errors(mods, m, s) == Err::<(Seq<HandleView>, Seq<HeaderErrorView>), ResolveErrorView>(e),
    decreases s.len(),
{
    if k == s.len() {
        assert(s.subrange(0, k) =~= s);
    } else {
        assert(s.drop_last().subrange(0, k) =~= s.subrange(0, k));
        lemma_alias_errors_stop(mods, m, s.drop_last(), k, e);
    }
}

/// The aliases of `aliases` that stand for `v`; see [`keys_with_value`].
fn keys_with_value_exec(aliases: &Vec<(Handle, Handle)>, v: &Handle) -> (r: Vec<Handle>)
    ensures
        handle_views(r@) == keys_with_value(pair_views(aliases@), v@),
{
    let ghost views = pair_views(aliases@);
    let mut out: Vec<Handle> = Vec::new();
    let mut i: usize = 0;
    proof {
        assert(handle_views(out@) =~= keys_with_value(views.subrange(0, 0), v@));
    }
    while i < aliases.len()
        invariant
            0 <= i <= aliases@.len(),
            views == pair_views(aliases@),
            handle_views(out@) == keys_with_value(views.subrange(0, i as int), v@),
        decreases aliases@.len() - i,
    {
        let ghost s = views.subrange(0, i as int + 1);
        proof {
            assert(s.drop_last() =~= views.subrange(0, i as int));
            assert(s.last() == (aliases@[i as int].0@, aliases@[i as int].1@));
        }
        if aliases[i].1.same(v) {
            let ghost before = out@;
            out.push(aliases[i].0.copy());
            proof {
                assert(handle_views(out@) =~= handle_views(before).push(aliases@[i as int].0@));
            }
        }
        i = i + 1;
    }
    proof {
        assert(views.subrange(0, i as int) =~= views);
    }
    out
}

impl ModuleHeader {
    fn alias_errors(&self, modules: &[ModuleHeader]) -> (r: Result<Vec<HeaderError>, ResolveError>)
        requires
            self@.wf(),
            all_wf(module_views(modules@)),
        ensures
            match r {
                Ok(v) => alias_errors(module_views(modules@), self@, self@.aliases) matches Ok((_, errs)) && errs == errors_view(v@),
                Err(e) => alias_errors(module_views(modules@), self@, self@.aliases) == Err::<(Seq<HandleView>, Seq<HeaderErrorView>), ResolveErrorView>(e@),
            },
    {
        let ghost mods = module_views(modules@);
        let depth = resolve_depth_exec(modules);
        let aliases = self.aliases();
        let mut reported: Vec<Handle> = Vec::new();
        let mut out: Vec<HeaderError> = Vec::new();
        let mut i: usize = 0;
        proof {
            assert(self@.aliases.subrange(0, 0) =~= Seq::<(HandleView, HandleView)>::empty());
            assert(errors_view(out@) =~= Seq::<HeaderErrorView>::empty());
            assert(handle_views(reported@) =~= Seq::<HandleView>::empty());
        }
        while i < aliases.len()
            invariant
                0 <= i <= aliases@.len(),
                pair_views(aliases@) == self@.aliases,
                mods == module_views(modules@),
                depth as nat == resolve_depth(mods),
                self@.wf(),
                all_wf(mods),
                alias_errors(mods, self@, self@.aliases.subrange(0, i as int))
                    == Ok::<(Seq<HandleView>, Seq<HeaderErrorView>), ResolveErrorView>((handle_views(reported@), errors_view(out@))),
            decreases aliases@.len() - i,
        {
            let ghost s = self@.aliases.subrange(0, i as int + 1);
            proof {
                assert(s.drop_last() =~= self@.aliases.subrange(0, i as int));
                assert(s.last() == self@.aliases[i as int]);
                assert(map_targets(self@.aliases)[i as int] == self@.aliases[i as int].1);
            }
            let v = &aliases[i].1;
            if !handles_contain(&reported, v) {
                let resolved = match find_module_index(modules, &v.module()) {
                    None => Err(ResolveError::MissingModule(v.module())),
                    Some(j) => {
                        assert(mods[j as int] == modules@[j as int]@);
                        assert(mods[j as int].wf());
                        modules[j].resolve_with(v, self.scope(), modules, depth)
                    },
                };
                let ghost before = out@;
                match resolved {
                    Ok(_) => {},
                    Err(x) => {
                        if is_fatal_exec(&x) {
                            proof {
                                lemma_alias_errors_stop(mods, self@, self@.aliases, i as int + 1, x@);
                            }
                            return Err(x);
                        }
                        out.push(HeaderError::Unresolvable(x));
                        proof {
                            lemma_errors_view_push(before, out@.last());
                        }
                    },
                }
                let keys = keys_with_value_exec(aliases, v);
                if keys.len() != 1 {
                    let ghost middle = out@;
                    let ghost rep = reported@;
                    reported.push(v.copy());
                    out.push(HeaderError::AliasedMultiple(v.copy(), keys));
                    proof {
                        lemma_errors_view_push(middle, out@.last());
                        assert(handle_views(reported@) =~= handle_views(rep).push(v@));
                    }
                }
            }
            i = i + 1;
        }
        proof {
            assert(self@.aliases.subrange(0, i as int) =~= self@.aliases);
        }
        Ok(out)
    }

    /// The problems of this module, given all the modules of the program and the native
    /// functions that the program binds; see [`header_errors`].
    pub fn errors(&self, modules: &[ModuleHeader], bound_natives: &Vec<Handle>) -> (r: Result<Vec<HeaderError>, ResolveError>)
        requires
            self@.wf(),
            all_wf(module_views(modules@)),
        ensures
            match r {
                Ok(v) => header_errors(module_views(modules@), self@, handle_views(bound_natives@)) == Ok::<Seq<HeaderErrorView>, ResolveErrorView>(errors_view(v@)),
                Err(e) => header_errors(module_views(modules@), self@, handle_views(bound_natives@)) == Err::<Seq<HeaderErrorView>, ResolveErrorView>(e@),
            },
    {
        let mut errors = self.glob_errors(modules);
        let mut natives = self.native_errors(bound_natives);
        let ghost a = errors@;
        let ghost b = natives@;
        errors.append(&mut natives);
        proof {
            assert(errors@ =~= a + b);
            lemma_errors_view_append(a, b);
        }
        let mut exports = match self.export_errors(modules) {
            Err(e) => return Err(e),
            Ok(v) => v,
        };
        let mut mutables = self.mutable_errors();
        let mut incompletes = self.incomplete_errors();
        let mut definitions = self.definition_errors(modules);
        let mut aliases = match self.alias_errors(modules) {
            Err(e) => return Err(e),
            Ok(v) => v,
        };
        let ghost e1 = errors@;
        let ghost e2 = exports@;
        let ghost e3 = mutables@;
        let ghost e4 = incompletes@;
        let ghost e5 = definitions@;
        let ghost e6 = aliases@;
        errors.append(&mut exports);
        errors.append(&mut mutables);
        errors.append(&mut incompletes);
        errors.append(&mut definitions);
        errors.append(&mut aliases);
        proof {
            let ghost mods = module_views(modules@);
            assert(errors@ =~= e1 + e2 + e3 + e4 + e5 + e6);
            assert(errors_view(errors@) =~= errors_view(e1) + errors_view(e2) + errors_view(e3) + errors_view(e4) + errors_view(e5) + errors_view(e6));
            let first = concat_map(self@.globs, glob_error_fn(mods)) + concat_map(self@.natives, native_error_fn(self@, handle_views(bound_natives@)));
            assert(errors_view(e1) == first);
            let middle = concat_map(self@.mutables, mutable_error_fn(self@))
                + concat_map(self@.incompletes, incomplete_error_fn(self@))
                + concat_map(self@.definitions, definition_error_fn(mods, self@));
            assert(errors_view(e3) + errors_view(e4) + errors_view(e5) == middle);
            assert(export_errors(mods, self@, self@.exports) == Ok::<Seq<HeaderErrorView>, ResolveErrorView>(errors_view(e2)));
            let al = alias_errors(mods, self@, self@.aliases);
            assert(al is Ok && al->Ok_0.1 == errors_view(e6));
            assert(header_errors(mods, self@, handle_views(bound_natives@)) == Ok::<Seq<HeaderErrorView>, ResolveErrorView>(first + errors_view(e2) + middle + errors_view(e6)));
            assert(errors_view(errors@) =~= first + errors_view(e2) + middle + errors_view(e6));
        }
        Ok(errors)
    }
}


/// A module that declares nothing has no problems.
pub proof fn lemma_empty_header_has_no_errors(mods: Seq<ModuleHeaderView>, s: ScopeView, bound: Seq<HandleView>)
    ensures
        header_errors(mods, crate::module_header::empty_header(s), bound) == Ok::<Seq<HeaderErrorView>, ResolveErrorView>(Seq::empty()),
{
    let m = crate::module_header::empty_header(s);
    assert(export_errors(mods, m, m.exports) == Ok::<Seq<HeaderErrorView>, ResolveErrorView>(Seq::empty()));
    assert(alias_errors(mods, m, m.aliases) == Ok::<(Seq<HandleView>, Seq<HeaderErrorView>), ResolveErrorView>((Seq::empty(), Seq::empty())));
    assert(Seq::<HeaderErrorView>::empty() + Seq::empty() + Seq::empty() + Seq::empty() + Seq::empty() + Seq::empty() =~= Seq::<HeaderErrorView>::empty());
}

} // verus!
