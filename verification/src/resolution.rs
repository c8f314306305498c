//! Resolving a handle seen from a module to the predicate it names, through the module's
//! definitions, aliases and glob imports.
use crate::handle::{Handle, HandleView};
use crate::handle_set::{handle_views, scope_views, pair_views, map_keys, map_get, handles_contain, find_key, lemma_unique_index_of};
use crate::module_header::{ModuleHeader, ModuleHeaderView, all_named};
use crate::scope::{Scope, ScopeView, scope_ge};
use vstd::prelude::*;

verus! {

/// Why a handle could not be resolved, as a mathematical value.
pub ghost enum ResolveErrorView {
    /// No predicate of that name and arity is reachable.
    Unresolved(HandleView, ScopeView),
    /// Several predicates of that name and arity are reachable through glob imports.
    Ambiguous(HandleView, Seq<HandleView>),
    /// The predicate is private to a module that does not enclose the scope it is seen from.
    NotVisible(HandleView, ScopeView),
    /// An alias or a glob import names a module that does not exist.
    MissingModule(ScopeView),
    /// Resolution went deeper than it may: the imports form a cycle.
    TooDeep,
}

/// Why a handle could not be resolved.
#[derive(Debug)]
pub enum ResolveError {
    /// No predicate of that name and arity is reachable: the handle, and the scope it was
    /// seen from.
    Unresolved(Handle, Scope),
    /// Several predicates of that name and arity are reachable through glob imports: the
    /// handle, and those predicates.
    Ambiguous(Handle, Vec<Handle>),
    /// The predicate is private to a module that does not enclose the scope it is seen
    /// from: the handle, and that scope.
    NotVisible(Handle, Scope),
    /// An alias or a glob import names a module that does not exist.
    MissingModule(Scope),
    /// Resolution went deeper than it may: the imports form a cycle.
    TooDeep,
}

impl View for ResolveError {
    type V = ResolveErrorView;

    open spec fn view(&self) -> ResolveErrorView {
        match self {
            ResolveError::Unresolved(h, s) => ResolveErrorView::Unresolved(h@, s@),
            ResolveError::Ambiguous(h, c) => ResolveErrorView::Ambiguous(h@, handle_views(c@)),
            ResolveError::NotVisible(h, s) => ResolveErrorView::NotVisible(h@, s@),
            ResolveError::MissingModule(s) => ResolveErrorView::MissingModule(s@),
            ResolveError::TooDeep => ResolveErrorView::TooDeep,
        }
    }
}

/// Whether an error stands for a resolution that cannot finish: a module that does not
/// exist, or a cycle of imports.
pub open spec fn is_fatal(e: ResolveErrorView) -> bool {
    e is MissingModule || e is TooDeep
}

/// The module in which the predicate of a handle is defined.
pub open spec fn module_of(h: HandleView) -> ScopeView {
    ScopeView { lib: h.scope.lib, path: h.scope.path.drop_last() }
}

/// The views of a sequence of module headers.
pub open spec fn module_views(s: Seq<ModuleHeader>) -> Seq<ModuleHeaderView> {
    s.map_values(|m: ModuleHeader| m@)
}

/// Whether every module header is well formed.
pub open spec fn all_wf(mods: Seq<ModuleHeaderView>) -> bool {
    forall|i: int| 0 <= i < mods.len() ==> (#[trigger] mods[i]).wf()
}

/// The first module of `mods` at scope `s`.
pub open spec fn find_module(mods: Seq<ModuleHeaderView>, s: ScopeView) -> Option<ModuleHeaderView>
    decreases mods.len(),
{
    if mods.len() == 0 {
        None
    } else if mods[0].scope == s {
        Some(mods[0])
    } else {
        find_module(mods.drop_first(), s)
    }
}

/// The first handle of `s` like `h`.
pub open spec fn first_like(s: Seq<HandleView>, h: HandleView) -> Option<HandleView>
    decreases s.len(),
{
    if s.len() == 0 {
        None
    } else if s[0].like(h) {
        Some(s[0])
    } else {
        first_like(s.drop_first(), h)
    }
}

/// What the first alias like `h` stands for.
pub open spec fn first_alias_like(aliases: Seq<(HandleView, HandleView)>, h: HandleView) -> Option<HandleView>
    decreases aliases.len(),
{
    if aliases.len() == 0 {
        None
    } else if aliases[0].0.like(h) {
        Some(aliases[0].1)
    } else {
        first_alias_like(aliases.drop_first(), h)
    }
}

/// Whether some handle of `s` is like `h`.
pub open spec fn any_like(s: Seq<HandleView>, h: HandleView) -> bool {
    exists|i: int| 0 <= i < s.len() && (#[trigger] s[i]).like(h)
}

/// The handles of `rs` that are like some handle of `exports`, in order.
pub open spec fn keep_exported(rs: Seq<HandleView>, exports: Seq<HandleView>) -> Seq<HandleView>
    decreases rs.len(),
{
    if rs.len() == 0 {
        Seq::empty()
    } else if any_like(exports, rs.last()) {
        keep_exported(rs.drop_last(), exports).push(rs.last())
    } else {
        keep_exported(rs.drop_last(), exports)
    }
}

/// The predicate that `h` names in module `m`, seen from scope `from`, given all the
/// modules of the program.
///
/// A handle that the module defines, or binds to a native function, names itself; an alias
/// names what its source resolves to in the source's module (seen from `m`); any other
/// handle names the one predicate like it that the glob imported modules offer. The
/// predicate must then be visible: `m` encloses `from`, or `m` exports `h`.
pub open spec fn resolve_in(mods: Seq<ModuleHeaderView>, m: ModuleHeaderView, h: HandleView, from: ScopeView, fuel: nat) -> Result<HandleView, ResolveErrorView>
    decreases fuel, 0nat,
{
    if fuel == 0 {
        Err(ResolveErrorView::TooDeep)
    } else {
        let f = (fuel - 1) as nat;
        let resolved: Result<HandleView, ResolveErrorView> = if m.definitions.contains(h) || m.natives.contains(h) {
            Ok(h)
        } else if m.alias_of(h) is Some {
            let source = m.alias_of(h).unwrap();
            match find_module(mods, module_of(source)) {
                None => Err(ResolveErrorView::MissingModule(module_of(source))),
                Some(sm) => resolve_in(mods, sm, source, m.scope, f),
            }
        } else {
            match resolve_like_all(mods, m.globs, h, from, f) {
                Err(e) => Err(e),
                Ok(candidates) => if candidates.len() == 0 {
                    Err(ResolveErrorView::Unresolved(h, from))
                } else if candidates.len() == 1 {
                    Ok(candidates[0])
                } else {
                    Err(ResolveErrorView::Ambiguous(h, candidates))
                },
            }
        };
        match resolved {
            Err(e) => Err(e),
            Ok(r) => if scope_ge(m.scope, from) || m.exports.contains(h) {
                Ok(r)
            } else {
                Err(ResolveErrorView::NotVisible(h, from))
            },
        }
    }
}

/// The predicates like `h` that module `m` offers to scope `from`: its definition like
/// `h`, or else what its alias like `h` resolves to (nothing when that fails), or else its
/// native function like `h`, or else those its glob imported modules offer. When `m` does
/// not enclose `from`, only those like one of its exports are offered. A fatal error stops
/// the search.
pub open spec fn resolve_like_in(mods: Seq<ModuleHeaderView>, m: ModuleHeaderView, h: HandleView, from: ScopeView, fuel: nat) -> Result<Seq<HandleView>, ResolveErrorView>
    decreases fuel, 0nat,
{
    if fuel == 0 {
        Err(ResolveErrorView::TooDeep)
    } else {
        let f = (fuel - 1) as nat;
        let resolved: Result<Seq<HandleView>, ResolveErrorView> = if first_like(m.definitions, h) is Some {
            Ok(seq![first_like(m.definitions, h).unwrap()])
        } else if first_alias_like(m.aliases, h) is Some {
            let source = first_alias_like(m.aliases, h).unwrap();
            match find_module(mods, module_of(source)) {
                None => Err(ResolveErrorView::MissingModule(module_of(source))),
                Some(sm) => match resolve_in(mods, sm, source, m.scope, f) {
                    Ok(r) => Ok(seq![r]),
                    Err(e) => if is_fatal(e) {
                        Err(e)
                    } else {
                        Ok(Seq::empty())
                    },
                },
            }
        } else if first_like(m.natives, h) is Some {
            Ok(seq![first_like(m.natives, h).unwrap()])
        } else {
            resolve_like_all(mods, m.globs, h, from, f)
        };
        match resolved {
            Err(e) => Err(e),
            Ok(rs) => if scope_ge(m.scope, from) {
                Ok(rs)
            } else {
                Ok(keep_exported(rs, m.exports))
            },
        }
    }
}

/// The predicates like `h` that the modules at `globs` offer to scope `from`, in order.
pub open spec fn resolve_like_all(mods: Seq<ModuleHeaderView>, globs: Seq<ScopeView>, h: HandleView, from: ScopeView, fuel: nat) -> Result<Seq<HandleView>, ResolveErrorView>
    decreases fuel, globs.len() + 1,
{
    if globs.len() == 0 {
        Ok(Seq::empty())
    } else {
        match find_module(mods, globs[0]) {
            None => Err(ResolveErrorView::MissingModule(globs[0])),
            Some(gm) => match resolve_like_in(mods, gm, h, from, fuel) {
                Err(e) => Err(e),
                Ok(first) => match resolve_like_all(mods, globs.drop_first(), h, from, fuel) {
                    Err(e) => Err(e),
                    Ok(rest) => Ok(first + rest),
                },
            },
        }
    }
}

/// The view of a resolution result.
pub open spec fn resolution_view(r: Result<Handle, ResolveError>) -> Result<HandleView, ResolveErrorView> {
    match r {
        Ok(h) => Ok(h@),
        Err(e) => Err(e@),
    }
}

/// The view of a search for like predicates.
pub open spec fn candidates_view(r: Result<Vec<Handle>, ResolveError>) -> Result<Seq<HandleView>, ResolveErrorView> {
    match r {
        Ok(v) => Ok(handle_views(v@)),
        Err(e) => Err(e@),
    }
}

/// The position of the first module at scope `s`.
pub fn find_module_index(modules: &[ModuleHeader], s: &Scope) -> (r: Option<usize>)
    ensures
        match r {
            Some(j) => j < modules@.len() && find_module(module_views(modules@), s@) == Some(modules@[j as int]@)
                && modules@[j as int]@.scope == s@,
            None => find_module(module_views(modules@), s@) is None
                && forall|k: int| 0 <= k < modules@.len() ==> (#[trigger] modules@[k])@.scope != s@,
        },
{
    let ghost views = module_views(modules@);
    let mut i: usize = 0;
    proof {
        assert(views.subrange(0, views.len() as int) =~= views);
    }
    while i < modules.len()
        invariant
            0 <= i <= modules@.len(),
            views == module_views(modules@),
            find_module(views, s@) == find_module(views.subrange(i as int, views.len() as int), s@),
            forall|k: int| 0 <= k < i ==> (#[trigger] modules@[k])@.scope != s@,
        decreases modules@.len() - i,
    {
        let ghost rest = views.subrange(i as int, views.len() as int);
        assert(rest[0] == modules@[i as int]@);
        if modules[i].scope().same(s) {
            return Some(i);
        }
        proof {
            assert(rest.drop_first() =~= views.subrange(i as int + 1, views.len() as int));
        }
        i = i + 1;
    }
    None
}

/// The position of the first handle of `v` like `h`.
pub(crate) fn first_like_index(v: &Vec<Handle>, h: &Handle) -> (r: Option<usize>)
    requires
        all_named(handle_views(v@)),
        h@.named(),
    ensures
        match r {
            Some(i) => i < v@.len() && first_like(handle_views(v@), h@) == Some(v@[i as int]@),
            None => first_like(handle_views(v@), h@) is None,
        },
{
    let ghost views = handle_views(v@);
    let mut i: usize = 0;
    proof {
        assert(views.subrange(0, views.len() as int) =~= views);
    }
    while i < v.len()
        invariant
            0 <= i <= v@.len(),
            views == handle_views(v@),
            all_named(views),
            h@.named(),
            first_like(views, h@) == first_like(views.subrange(i as int, views.len() as int), h@),
        decreases v@.len() - i,
    {
        let ghost rest = views.subrange(i as int, views.len() as int);
        assert(rest[0] == v@[i as int]@);
        assert(views[i as int].named());
        if v[i].like(h) {
            return Some(i);
        }
        proof {
            assert(rest.drop_first() =~= views.subrange(i as int + 1, views.len() as int));
        }
        i = i + 1;
    }
    None
}

/// The position of the first alias like `h`.
fn first_alias_like_index(aliases: &Vec<(Handle, Handle)>, h: &Handle) -> (r: Option<usize>)
    requires
        all_named(map_keys(pair_views(aliases@))),
        h@.named(),
    ensures
        match r {
            Some(i) => i < aliases@.len() && first_alias_like(pair_views(aliases@), h@) == Some(aliases@[i as int].1@),
            None => first_alias_like(pair_views(aliases@), h@) is None,
        },
{
    let ghost views = pair_views(aliases@);
    let mut i: usize = 0;
    proof {
        assert(views.subrange(0, views.len() as int) =~= views);
    }
    while i < aliases.len()
        invariant
            0 <= i <= aliases@.len(),
            views == pair_views(aliases@),
            all_named(map_keys(views)),
            h@.named(),
            first_alias_like(views, h@) == first_alias_like(views.subrange(i as int, views.len() as int), h@),
        decreases aliases@.len() - i,
    {
        let ghost rest = views.subrange(i as int, views.len() as int);
        assert(rest[0] == views[i as int]);
        assert(map_keys(views)[i as int] == views[i as int].0);
        if aliases[i].0.like(h) {
            return Some(i);
        }
        proof {
            assert(rest.drop_first() =~= views.subrange(i as int + 1, views.len() as int));
        }
        i = i + 1;
    }
    None
}

/// Whether some handle of `v` is like `h`.
fn any_like_exec(v: &Vec<Handle>, h: &Handle) -> (r: bool)
    requires
        all_named(handle_views(v@)),
        h@.named(),
    ensures
        r == any_like(handle_views(v@), h@),
{
    let ghost views = handle_views(v@);
    let mut i: usize = 0;
    while i < v.len()
        invariant
            0 <= i <= v@.len(),
            views == handle_views(v@),
            all_named(views),
            h@.named(),
            forall|j: int| 0 <= j < i ==> !(#[trigger] views[j]).like(h@),
        decreases v@.len() - i,
    {
        assert(views[i as int].named());
        if v[i].like(h) {
            assert(views[i as int].like(h@));
            return true;
        }
        i = i + 1;
    }
    false
}

/// The handles of `rs` like one of `exports`, in order; see [`keep_exported`].
fn keep_exported_exec(rs: Vec<Handle>, exports: &Vec<Handle>) -> (r: Vec<Handle>)
    requires
        all_named(handle_views(rs@)),
        all_named(handle_views(exports@)),
    ensures
        handle_views(r@) == keep_exported(handle_views(rs@), handle_views(exports@)),
        all_named(handle_views(r@)),
{
    let ghost views = handle_views(rs@);
    let mut out: Vec<Handle> = Vec::new();
    let mut i: usize = 0;
    proof {
        assert(handle_views(out@) =~= keep_exported(views.subrange(0, 0), handle_views(exports@)));
    }
    while i < rs.len()
        invariant
            0 <= i <= rs@.len(),
            views == handle_views(rs@),
            all_named(views),
            all_named(handle_views(exports@)),
            handle_views(out@) == keep_exported(views.subrange(0, i as int), handle_views(exports@)),
            all_named(handle_views(out@)),
        decreases rs@.len() - i,
    {
        let ghost prefix = views.subrange(0, i as int + 1);
        assert(prefix.drop_last() =~= views.subrange(0, i as int));
        assert(prefix.last() == rs@[i as int]@);
        assert(views[i as int].named());
        if any_like_exec(exports, &rs[i]) {
            let ghost before = out@;
            out.push(rs[i].copy());
            proof {
                assert(handle_views(out@) =~= handle_views(before).push(rs@[i as int]@));
                assert forall|j: int| 0 <= j < handle_views(out@).len() implies (#[trigger] handle_views(out@)[j]).named() by {
                    if j < before.len() {
                        assert(handle_views(out@)[j] == handle_views(before)[j]);
                    }
                }
            }
        }
        i = i + 1;
    }
    proof {
        assert(views.subrange(0, views.len() as int) =~= views);
    }
    out
}

/// The like predicates offered by the modules at `globs[start..]`; see
/// [`resolve_like_all`].
fn resolve_like_from(
    modules: &[ModuleHeader],
    globs: &Vec<Scope>,
    start: usize,
    handle: &Handle,
    from: &Scope,
    fuel: u64,
) -> (r: Result<Vec<Handle>, ResolveError>)
    requires
        all_wf(module_views(modules@)),
        handle@.named(),
        start <= globs@.len(),
    ensures
        candidates_view(r) == resolve_like_all(
            module_views(modules@),
            scope_views(globs@).subrange(start as int, globs@.len() as int),
            handle@,
            from@,
            fuel as nat,
        ),
        r matches Ok(v) ==> all_named(handle_views(v@)),
    decreases fuel, globs@.len() - start + 1,
{
    let ghost mods = module_views(modules@);
    let ghost gs = scope_views(globs@).subrange(start as int, globs@.len() as int);
    if start == globs.len() {
        let out: Vec<Handle> = Vec::new();
        proof {
            assert(handle_views(out@) =~= Seq::<HandleView>::empty());
        }
        return Ok(out);
    }
    assert(gs[0] == globs@[start as int]@);
    assert(gs.drop_first() =~= scope_views(globs@).subrange(start as int + 1, globs@.len() as int));
    match find_module_index(modules, &globs[start]) {
        None => Err(ResolveError::MissingModule(globs[start].copy())),
        Some(j) => {
            assert(mods[j as int] == modules@[j as int]@);
            assert(mods[j as int].wf());
            match modules[j].resolve_like_with(handle, from, modules, fuel) {
                Err(e) => Err(e),
                Ok(first) => match resolve_like_from(modules, globs, start + 1, handle, from, fuel) {
                    Err(e) => Err(e),
                    Ok(rest) => {
                        let mut all = first;
                        let mut rest = rest;
                        let ghost a = handle_views(all@);
                        let ghost b = handle_views(rest@);
                        all.append(&mut rest);
                        proof {
                            assert(handle_views(all@) =~= a + b);
                            assert forall|k: int| 0 <= k < handle_views(all@).len() implies (#[trigger] handle_views(all@)[k]).named() by {
                                if k < a.len() {
                                    assert(handle_views(all@)[k] == a[k]);
                                } else {
                                    assert(handle_views(all@)[k] == b[k - a.len()]);
                                }
                            }
                        }
                        Ok(all)
                    },
                },
            }
        },
    }
}

impl ModuleHeader {
    /// The predicate that `handle` names in this module, seen from scope `from`, in at most
    /// `fuel` nested steps; see [`resolve_in`].
    pub fn resolve_with(&self, handle: &Handle, from: &Scope, modules: &[ModuleHeader], fuel: u64) -> (r: Result<Handle, ResolveError>)
        requires
            self@.wf(),
            all_wf(module_views(modules@)),
            handle@.named(),
        ensures
            resolution_view(r) == resolve_in(module_views(modules@), self@, handle@, from@, fuel as nat),
            r matches Ok(h) ==> h@.named(),
        decreases fuel, 0nat,
    {
        let ghost mods = module_views(modules@);
        if fuel == 0 {
            return Err(ResolveError::TooDeep);
        }
        let f = fuel - 1;
        let resolved: Result<Handle, ResolveError> = if handles_contain(self.definitions(), handle) || handles_contain(self.natives(), handle) {
            Ok(handle.copy())
        } else {
            match find_key(self.aliases(), handle) {
                Some(i) => {
                    let ghost keys = map_keys(self@.aliases);
                    proof {
                        assert(keys[i as int] == handle@);
                        lemma_unique_index_of(keys, i as int);
                        assert(self@.alias_of(handle@) == Some(self@.aliases[i as int].1));
                        assert(crate::handle_set::map_targets(self@.aliases)[i as int] == self@.aliases[i as int].1);
                    }
                    let source = &self.aliases()[i].1;
                    let m = source.module();
                    match find_module_index(modules, &m) {
                        None => Err(ResolveError::MissingModule(m)),
                        Some(j) => {
                            assert(mods[j as int] == modules@[j as int]@);
                            assert(mods[j as int].wf());
                            modules[j].resolve_with(source, self.scope(), modules, f)
                        },
                    }
                },
                None => {
                    proof {
                        assert(self@.alias_of(handle@) is None);
                        assert(self@.globs.subrange(0, self@.globs.len() as int) =~= self@.globs);
                    }
                    match resolve_like_from(modules, self.globbed_modules(), 0, handle, from, f) {
                        Err(e) => Err(e),
                        Ok(candidates) => {
                            if candidates.len() == 0 {
                                Err(ResolveError::Unresolved(handle.copy(), from.copy()))
                            } else if candidates.len() == 1 {
                                assert(handle_views(candidates@)[0] == candidates@[0]@);
                                Ok(candidates[0].copy())
                            } else {
                                Err(ResolveError::Ambiguous(handle.copy(), candidates))
                            }
                        },
                    }
                },
            }
        };
        match resolved {
            Err(e) => Err(e),
            Ok(r) => {
                if self.scope().ge(from) || handles_contain(self.exports(), handle) {
                    Ok(r)
                } else {
                    Err(ResolveError::NotVisible(handle.copy(), from.copy()))
                }
            },
        }
    }

    /// The predicates like `handle` that this module offers to scope `from`, in at most
    /// `fuel` nested steps; see [`resolve_like_in`].
    pub fn resolve_like_with(&self, handle: &Handle, from: &Scope, modules: &[ModuleHeader], fuel: u64) -> (r: Result<Vec<Handle>, ResolveError>)
        requires
            self@.wf(),
            all_wf(module_views(modules@)),
            handle@.named(),
        ensures
            candidates_view(r) == resolve_like_in(module_views(modules@), self@, handle@, from@, fuel as nat),
            r matches Ok(v) ==> all_named(handle_views(v@)),
        decreases fuel, 0nat,
    {
        let ghost mods = module_views(modules@);
        if fuel == 0 {
            return Err(ResolveError::TooDeep);
        }
        let f = fuel - 1;
        let resolved: Result<Vec<Handle>, ResolveError> = match first_like_index(self.definitions(), handle) {
            Some(i) => {
                let mut v: Vec<Handle> = Vec::new();
                v.push(self.definitions()[i].copy());
                proof {
                    assert(handle_views(v@) =~= seq![self@.definitions[i as int]]);
                    assert(self@.definitions[i as int].named());
                }
                Ok(v)
            },
            None => match first_alias_like_index(self.aliases(), handle) {
                Some(i) => {
                    proof {
                        assert(crate::handle_set::map_targets(self@.aliases)[i as int] == self@.aliases[i as int].1);
                    }
                    let source = &self.aliases()[i].1;
                    let m = source.module();
                    match find_module_index(modules, &m) {
                        None => Err(ResolveError::MissingModule(m)),
                        Some(j) => {
                            assert(mods[j as int] == modules@[j as int]@);
                            assert(mods[j as int].wf());
                            match modules[j].resolve_with(source, self.scope(), modules, f) {
                                Ok(r) => {
                                    let mut v: Vec<Handle> = Vec::new();
                                    v.push(r);
                                    proof {
                                        assert(handle_views(v@) =~= seq![v@[0]@]);
                                    }
                                    Ok(v)
                                },
                                Err(e) => {
                                    let fatal = match e {
                                        ResolveError::MissingModule(..) => true,
                                        ResolveError::TooDeep => true,
                                        _ => false,
                                    };
                                    if fatal {
                                        Err(e)
                                    } else {
                                        let v: Vec<Handle> = Vec::new();
                                        proof {
                                            assert(handle_views(v@) =~= Seq::<HandleView>::empty());
                                        }
                                        Ok(v)
                                    }
                                },
                            }
                        },
                    }
                },
                None => match first_like_index(self.natives(), handle) {
                    Some(i) => {
                        let mut v: Vec<Handle> = Vec::new();
                        v.push(self.natives()[i].copy());
                        proof {
                            assert(handle_views(v@) =~= seq![self@.natives[i as int]]);
                            assert(self@.natives[i as int].named());
                        }
                        Ok(v)
                    },
                    None => {
                        proof {
                            assert(self@.globs.subrange(0, self@.globs.len() as int) =~= self@.globs);
                        }
                        resolve_like_from(modules, self.globbed_modules(), 0, handle, from, f)
                    },
                },
            },
        };
        match resolved {
            Err(e) => Err(e),
            Ok(rs) => {
                if self.scope().ge(from) {
                    Ok(rs)
                } else {
                    Ok(keep_exported_exec(rs, self.exports()))
                }
            },
        }
    }
}


/// The number of aliases that the modules of `mods` declare.
pub open spec fn alias_count(mods: Seq<ModuleHeaderView>) -> nat
    decreases mods.len(),
{
    if mods.len() == 0 {
        0
    } else {
        alias_count(mods.drop_last()) + mods.last().aliases.len()
    }
}

/// The number of nested steps that resolution among the modules `mods` may take, as far as
/// a `u64` goes: one more than twice the product of the number of modules (and one), the
/// number of scopes a handle may be seen from (and one), and the number of handles a
/// search may look for (the aliases, and one). A search is in one of that many states (the
/// kind of search, the module, the handle and the scope it is seen from), so one that does
/// not come back to a state it has been in ends within that many steps.
pub open spec fn resolve_depth(mods: Seq<ModuleHeaderView>) -> nat {
    let n = mods.len() + 1;
    let s = 2 * n * n * (alias_count(mods) + 1) + 1;
    if s > u64::MAX {
        u64::MAX as nat
    } else {
        s
    }
}

/// Resolution may take at least one step.
pub proof fn lemma_resolve_depth_positive(mods: Seq<ModuleHeaderView>)
    ensures
        resolve_depth(mods) >= 1,
{
    let n = mods.len() + 1;
    let c = alias_count(mods);
    assert(2 * n * n * (c + 1) + 1 >= 1) by (nonlinear_arith)
        requires
            n >= 1,
    ;
}

/// The alias count of a prefix of the modules is at most that of all of them.
proof fn lemma_alias_count_prefix(mods: Seq<ModuleHeaderView>, k: int)
    requires
        0 <= k <= mods.len(),
    ensures
        alias_count(mods.take(k)) <= alias_count(mods),
    decreases mods.len() - k,
{
    if k < mods.len() {
        assert(mods.take(k + 1).drop_last() =~= mods.take(k));
        lemma_alias_count_prefix(mods, k + 1);
    } else {
        assert(mods.take(k) =~= mods);
    }
}

/// The number of nested steps that resolution among `modules` may take; see
/// [`resolve_depth`].
pub fn resolve_depth_exec(modules: &[ModuleHeader]) -> (r: u64)
    ensures
        r as nat == resolve_depth(module_views(modules@)),
        r >= 1,
{
    let ghost mods = module_views(modules@);
    let mut a: u64 = 0;
    let mut k: usize = 0;
    proof {
        assert(mods.take(0) =~= Seq::<ModuleHeaderView>::empty());
    }
    while k < modules.len()
        invariant
            k <= modules.len(),
            mods == module_views(modules@),
            a as nat == alias_count(mods.take(k as int)),
        decreases modules.len() - k,
    {
        proof {
            assert(mods.take(k + 1).drop_last() =~= mods.take(k as int));
            assert(mods[k as int] == modules@[k as int]@);
        }
        let count = modules[k].aliases().len();
        proof {
            assert(count == mods[k as int].aliases.len());
        }
        match a.checked_add(count as u64) {
            None => {
                proof {
                    lemma_alias_count_prefix(mods, k + 1);
                    let c = alias_count(mods);
                    let n = mods.len() + 1;
                    assert(2 * n * n * (c + 1) + 1 > c) by (nonlinear_arith)
                        requires
                            n >= 1,
                    ;
                }
                return u64::MAX;
            },
            Some(x) => {
                a = x;
            },
        }
        k = k + 1;
    }
    proof {
        assert(mods.take(k as int) =~= mods);
    }
    let n: u64 = if modules.len() as u64 >= u64::MAX {
        proof {
            let c = alias_count(mods);
            let m = mods.len() + 1;
            assert(2 * m * m * (c + 1) + 1 > u64::MAX) by (nonlinear_arith)
                requires
                    m > u64::MAX,
            ;
        }
        return u64::MAX;
    } else {
        modules.len() as u64 + 1
    };
    let ghost c = alias_count(mods);
    proof {
        assert(n as int == mods.len() + 1);
    }
    let total = match a.checked_add(1) {
        None => {
            proof {
                assert(2 * n * n * (c + 1) + 1 > u64::MAX) by (nonlinear_arith)
                    requires
                        n >= 1,
                        c + 1 > u64::MAX,
                ;
            }
            return u64::MAX;
        },
        Some(t) => t,
    };
    let two_n = match n.checked_mul(2) {
        None => {
            proof {
                assert(2 * n * n * (c + 1) + 1 > u64::MAX) by (nonlinear_arith)
                    requires
                        n >= 1,
                        2 * n > u64::MAX,
                ;
            }
            return u64::MAX;
        },
        Some(t) => t,
    };
    let square = match two_n.checked_mul(n) {
        None => {
            proof {
                assert(2 * n * n * (c + 1) + 1 > u64::MAX) by (nonlinear_arith)
                    requires
                        n >= 1,
                        two_n == 2 * n,
                        two_n * n > u64::MAX,
                ;
            }
            return u64::MAX;
        },
        Some(t) => t,
    };
    let product = match square.checked_mul(total) {
        None => {
            proof {
                assert(2 * n * n * (c + 1) + 1 > u64::MAX) by (nonlinear_arith)
                    requires
                        square == 2 * n * n,
                        total == c + 1,
                        square * total > u64::MAX,
                ;
            }
            return u64::MAX;
        },
        Some(t) => t,
    };
    proof {
        assert(product == 2 * n * n * (c + 1)) by (nonlinear_arith)
            requires
                square == 2 * n * n,
                total == c + 1,
                product == square * total,
        ;
    }
    match product.checked_add(1) {
        None => u64::MAX,
        Some(d) => d,
    }
}

impl ModuleHeader {
    /// The predicate that `handle` names in this module, seen from scope `from`, given all
    /// the modules of the program; see [`resolve_in`].
    pub fn resolve(&self, handle: &Handle, from: &Scope, modules: &[ModuleHeader]) -> (r: Result<Handle, ResolveError>)
        requires
            self@.wf(),
            all_wf(module_views(modules@)),
            handle@.named(),
        ensures
            resolution_view(r) == resolve_in(module_views(modules@), self@, handle@, from@, resolve_depth(module_views(modules@))),
    {
        self.resolve_with(handle, from, modules, resolve_depth_exec(modules))
    }

    /// The predicates like `handle` that this module offers to scope `from`, given all the
    /// modules of the program; see [`resolve_like_in`].
    pub fn resolve_like(&self, handle: &Handle, from: &Scope, modules: &[ModuleHeader]) -> (r: Result<Vec<Handle>, ResolveError>)
        requires
            self@.wf(),
            all_wf(module_views(modules@)),
            handle@.named(),
        ensures
            candidates_view(r) == resolve_like_in(module_views(modules@), self@, handle@, from@, resolve_depth(module_views(modules@))),
    {
        self.resolve_like_with(handle, from, modules, resolve_depth_exec(modules))
    }
}

/// Visibility: a handle resolves in a module only when the module encloses the scope it is
/// seen from, or exports the handle.
pub proof fn lemma_private_handles_are_hidden(mods: Seq<ModuleHeaderView>, m: ModuleHeaderView, h: HandleView, from: ScopeView, fuel: nat)
    requires
        !scope_ge(m.scope, from),
        !m.exports.contains(h),
    ensures
        resolve_in(mods, m, h, from, fuel) is Err,
{
}

/// A module resolves a handle it defines to that handle itself, from any scope it encloses
/// and, when it exports the handle, from anywhere.
pub proof fn lemma_definitions_resolve_to_themselves(mods: Seq<ModuleHeaderView>, m: ModuleHeaderView, h: HandleView, from: ScopeView, fuel: nat)
    requires
        fuel > 0,
        m.definitions.contains(h),
        scope_ge(m.scope, from) || m.exports.contains(h),
    ensures
        resolve_in(mods, m, h, from, fuel) == Ok::<HandleView, ResolveErrorView>(h),
{
}

/// Declaring a predicate in a module makes it resolve to itself within that module.
pub proof fn lemma_declared_predicate_resolves(mods: Seq<ModuleHeaderView>, m: ModuleHeaderView, h: HandleView)
    ensures
        resolve_in(
            mods,
            ModuleHeaderView { definitions: crate::handle_set::set_insert(m.definitions, h), ..m },
            h,
            m.scope,
            resolve_depth(mods),
        ) == Ok::<HandleView, ResolveErrorView>(h),
{
    lemma_resolve_depth_positive(mods);
    crate::handle_set::lemma_set_insert_no_duplicates_contains(m.definitions, h);
    crate::scope::lemma_scope_ge_reflexive(m.scope);
}

/// Every handle kept from `rs` is like one of `exports`.
proof fn lemma_kept_are_exported(rs: Seq<HandleView>, exports: Seq<HandleView>)
    ensures
        forall|i: int| 0 <= i < keep_exported(rs, exports).len() ==> any_like(exports, #[trigger] keep_exported(rs, exports)[i]),
    decreases rs.len(),
{
    if rs.len() > 0 {
        lemma_kept_are_exported(rs.drop_last(), exports);
        let before = keep_exported(rs.drop_last(), exports);
        if any_like(exports, rs.last()) {
            assert forall|i: int| 0 <= i < before.push(rs.last()).len() implies any_like(exports, #[trigger] before.push(rs.last())[i]) by {
                if i < before.len() {
                    assert(before.push(rs.last())[i] == before[i]);
                }
            }
        }
    }
}

/// Only what a module exports leaves it: seen from a scope that the module does not
/// enclose, every predicate it offers is like one of its exports.
pub proof fn lemma_only_exports_are_offered_outside(mods: Seq<ModuleHeaderView>, m: ModuleHeaderView, h: HandleView, from: ScopeView, fuel: nat)
    requires
        !scope_ge(m.scope, from),
    ensures
        resolve_like_in(mods, m, h, from, fuel) matches Ok(rs) ==> forall|i: int| 0 <= i < rs.len() ==> any_like(m.exports, #[trigger] rs[i]),
{
    if fuel > 0 {
        let f = (fuel - 1) as nat;
        let resolved: Result<Seq<HandleView>, ResolveErrorView> = if first_like(m.definitions, h) is Some {
            Ok(seq![first_like(m.definitions, h).unwrap()])
        } else if first_alias_like(m.aliases, h) is Some {
            let source = first_alias_like(m.aliases, h).unwrap();
            match find_module(mods, module_of(source)) {
                None => Err(ResolveErrorView::MissingModule(module_of(source))),
                Some(sm) => match resolve_in(mods, sm, source, m.scope, f) {
                    Ok(r) => Ok(seq![r]),
                    Err(e) => if is_fatal(e) {
                        Err(e)
                    } else {
                        Ok(Seq::empty())
                    },
                },
            }
        } else if first_like(m.natives, h) is Some {
            Ok(seq![first_like(m.natives, h).unwrap()])
        } else {
            resolve_like_all(mods, m.globs, h, from, f)
        };
        if let Ok(rs) = resolved {
            lemma_kept_are_exported(rs, m.exports);
        }
    }
}

/// Glob imported modules that do not enclose `from` and export nothing offer nothing to
/// it: a search through them finds no predicate, unless it fails.
pub proof fn lemma_private_globs_offer_nothing(mods: Seq<ModuleHeaderView>, globs: Seq<ScopeView>, h: HandleView, from: ScopeView, fuel: nat)
    requires
        forall|i: int| 0 <= i < globs.len() ==> (find_module(mods, #[trigger] globs[i]) matches Some(gm) ==> !scope_ge(gm.scope, from) && gm.exports.len() == 0),
    ensures
        resolve_like_all(mods, globs, h, from, fuel) matches Ok(rs) ==> rs.len() == 0,
    decreases globs.len(),
{
    if globs.len() > 0 {
        assert(find_module(mods, globs[0]) matches Some(gm) ==> !scope_ge(gm.scope, from) && gm.exports.len() == 0);
        assert forall|i: int| 0 <= i < globs.drop_first().len() implies (find_module(mods, #[trigger] globs.drop_first()[i]) matches Some(gm) ==> !scope_ge(gm.scope, from) && gm.exports.len() == 0) by {
            assert(globs.drop_first()[i] == globs[i + 1]);
        }
        lemma_private_globs_offer_nothing(mods, globs.drop_first(), h, from, fuel);
        if let Some(gm) = find_module(mods, globs[0]) {
            lemma_only_exports_are_offered_outside(mods, gm, h, from, fuel);
            if let Ok(first) = resolve_like_in(mods, gm, h, from, fuel) {
                if first.len() > 0 {
                    assert(any_like(gm.exports, first[0]));
                }
            }
        }
    }
}

/// A handle that a module neither defines, binds to a native function nor aliases, and
/// that its glob imported modules could only offer privately (they do not enclose `from`
/// and export nothing), is unresolved, unless the search through those modules fails.
pub proof fn lemma_unexported_globs_leave_unresolved(mods: Seq<ModuleHeaderView>, m: ModuleHeaderView, h: HandleView, from: ScopeView, fuel: nat)
    requires
        fuel > 0,
        !m.definitions.contains(h),
        !m.natives.contains(h),
        m.alias_of(h) is None,
        forall|i: int| 0 <= i < m.globs.len() ==> (find_module(mods, #[trigger] m.globs[i]) matches Some(gm) ==> !scope_ge(gm.scope, from) && gm.exports.len() == 0),
    ensures
        resolve_in(mods, m, h, from, fuel) == match resolve_like_all(mods, m.globs, h, from, (fuel - 1) as nat) {
            Err(e) => Err::<HandleView, ResolveErrorView>(e),
            Ok(_) => Err(ResolveErrorView::Unresolved(h, from)),
        },
{
    lemma_private_globs_offer_nothing(mods, m.globs, h, from, (fuel - 1) as nat);
}

/// A module offers its own definition like `h` before anything else: to a scope it
/// encloses, and elsewhere when the definition is like one of its exports; otherwise it
/// offers nothing for `h`.
pub proof fn lemma_definition_is_offered_first(mods: Seq<ModuleHeaderView>, m: ModuleHeaderView, h: HandleView, from: ScopeView, fuel: nat)
    requires
        fuel > 0,
        first_like(m.definitions, h) is Some,
    ensures
        resolve_like_in(mods, m, h, from, fuel) == if scope_ge(m.scope, from) || any_like(m.exports, first_like(m.definitions, h).unwrap()) {
            Ok::<Seq<HandleView>, ResolveErrorView>(seq![first_like(m.definitions, h).unwrap()])
        } else {
            Ok::<Seq<HandleView>, ResolveErrorView>(Seq::empty())
        },
{
    let d = first_like(m.definitions, h).unwrap();
    let rs = seq![d];
    assert(rs.drop_last() =~= Seq::<HandleView>::empty());
    assert(rs.last() == d);
    assert(keep_exported(Seq::<HandleView>::empty(), m.exports) =~= Seq::<HandleView>::empty());
    assert(Seq::<HandleView>::empty().push(d) =~= rs);
}

} // verus!
