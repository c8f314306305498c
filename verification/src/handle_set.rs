//! Sets of handles and of scopes, and maps from handles to handles, kept in the order in
//! which their members were first added.
use crate::handle::{Handle, HandleView};
use crate::scope::{Scope, ScopeView};
use vstd::prelude::*;

verus! {

/// The views of a sequence of handles.
pub open spec fn handle_views(s: Seq<Handle>) -> Seq<HandleView> {
    s.map_values(|h: Handle| h@)
}

/// The views of a sequence of scopes.
pub open spec fn scope_views(s: Seq<Scope>) -> Seq<ScopeView> {
    s.map_values(|m: Scope| m@)
}

/// The views of a sequence of pairs of handles.
pub open spec fn pair_views(s: Seq<(Handle, Handle)>) -> Seq<(HandleView, HandleView)> {
    s.map_values(|p: (Handle, Handle)| (p.0@, p.1@))
}

/// The set `s` with `x` added: unchanged when it already holds `x`, `x` appended otherwise.
pub open spec fn set_insert<A>(s: Seq<A>, x: A) -> Seq<A> {
    if s.contains(x) {
        s
    } else {
        s.push(x)
    }
}

/// The keys of a map held as a sequence of pairs.
pub open spec fn map_keys<A, B>(m: Seq<(A, B)>) -> Seq<A> {
    m.map_values(|p: (A, B)| p.0)
}

/// The values of a map held as a sequence of pairs, in the order of their keys.
pub open spec fn map_targets<A, B>(m: Seq<(A, B)>) -> Seq<B> {
    m.map_values(|p: (A, B)| p.1)
}

/// Whether no key of `m` appears twice.
pub open spec fn unique_map<A, B>(m: Seq<(A, B)>) -> bool {
    map_keys(m).no_duplicates()
}

/// The value of `k` in `m`, if it has one.
pub open spec fn map_get<A, B>(m: Seq<(A, B)>, k: A) -> Option<B> {
    if map_keys(m).contains(k) {
        Some(m[map_keys(m).index_of(k)].1)
    } else {
        None
    }
}

/// The map `m` with `k` bound to `v`: its pair replaced if it has one, appended otherwise.
pub open spec fn map_insert<A, B>(m: Seq<(A, B)>, k: A, v: B) -> Seq<(A, B)> {
    if map_keys(m).contains(k) {
        m.update(map_keys(m).index_of(k), (k, v))
    } else {
        m.push((k, v))
    }
}

/// Adding a member keeps a set free of duplicates.
pub proof fn lemma_set_insert_no_duplicates<A>(s: Seq<A>, x: A)
    requires
        s.no_duplicates(),
    ensures
        set_insert(s, x).no_duplicates(),
        set_insert(s, x).contains(x),
        forall|y: A| #[trigger] set_insert(s, x).contains(y) <==> (s.contains(y) || y == x),
{
    if !s.contains(x) {
        assert forall|y: A| #[trigger] s.push(x).contains(y) <==> (s.contains(y) || y == x) by {
            if s.push(x).contains(y) {
                let i = choose|i: int| 0 <= i < s.push(x).len() && s.push(x)[i] == y;
                if i < s.len() {
                    assert(s[i] == y);
                }
            }
            if s.contains(y) {
                let i = choose|i: int| 0 <= i < s.len() && s[i] == y;
                assert(s.push(x)[i] == y);
            }
            if y == x {
                assert(s.push(x)[s.len() as int] == y);
            }
        }
    }
}

/// A key with a value is a key of the map.
pub proof fn lemma_map_get_some_contains<A, B>(m: Seq<(A, B)>, k: A)
    ensures
        map_get(m, k) is Some <==> map_keys(m).contains(k),
{
}

/// A set holds what was just added to it.
pub proof fn lemma_set_insert_no_duplicates_contains<A>(s: Seq<A>, x: A)
    ensures
        set_insert(s, x).contains(x),
{
    if !s.contains(x) {
        assert(s.push(x)[s.len() as int] == x);
    }
}

/// Binding a key keeps the keys of a map unique, and the key then has the new value.
pub proof fn lemma_map_insert<A, B>(m: Seq<(A, B)>, k: A, v: B)
    requires
        unique_map(m),
    ensures
        unique_map(map_insert(m, k, v)),
        map_get(map_insert(m, k, v), k) == Some(v),
        map_keys(map_insert(m, k, v)) == set_insert(map_keys(m), k),
{
    let keys = map_keys(m);
    let after = map_insert(m, k, v);
    if keys.contains(k) {
        let i = keys.index_of(k);
        assert(map_keys(after) =~= keys);
        assert(map_keys(after).index_of(k) == i) by {
            assert(map_keys(after)[i] == k);
        }
    } else {
        assert(map_keys(after) =~= keys.push(k));
        lemma_set_insert_no_duplicates(keys, k);
        assert(map_keys(after)[m.len() as int] == k);
        assert(map_keys(after).index_of(k) == m.len()) by {
            assert(forall|j: int| 0 <= j < m.len() ==> #[trigger] map_keys(after)[j] == keys[j]);
        }
    }
}

/// In a sequence without duplicates, the position of a member is the one it stands at.
pub proof fn lemma_unique_index_of<A>(s: Seq<A>, i: int)
    requires
        s.no_duplicates(),
        0 <= i < s.len(),
    ensures
        s.index_of(s[i]) == i,
{
    assert(s.contains(s[i]));
}

/// Whether `v` holds a handle equal to `h`.
pub fn handles_contain(v: &Vec<Handle>, h: &Handle) -> (r: bool)
    ensures
        r == handle_views(v@).contains(h@),
{
    let mut i: usize = 0;
    while i < v.len()
        invariant
            0 <= i <= v@.len(),
            forall|j: int| 0 <= j < i ==> v@[j]@ != h@,
        decreases v@.len() - i,
    {
        if v[i].same(h) {
            assert(handle_views(v@)[i as int] == h@);
            return true;
        }
        i = i + 1;
    }
    proof {
        if handle_views(v@).contains(h@) {
            let j = choose|j: int| 0 <= j < handle_views(v@).len() && handle_views(v@)[j] == h@;
            assert(v@[j]@ == h@);
        }
    }
    false
}

/// Whether `v` holds a scope equal to `s`.
pub fn scopes_contain(v: &Vec<Scope>, s: &Scope) -> (r: bool)
    ensures
        r == scope_views(v@).contains(s@),
{
    let mut i: usize = 0;
    while i < v.len()
        invariant
            0 <= i <= v@.len(),
            forall|j: int| 0 <= j < i ==> v@[j]@ != s@,
        decreases v@.len() - i,
    {
        if v[i].same(s) {
            assert(scope_views(v@)[i as int] == s@);
            return true;
        }
        i = i + 1;
    }
    proof {
        if scope_views(v@).contains(s@) {
            let j = choose|j: int| 0 <= j < scope_views(v@).len() && scope_views(v@)[j] == s@;
            assert(v@[j]@ == s@);
        }
    }
    false
}

/// Adds `h` to the set `v`. When `v` already holds an equal handle, that handle is replaced
/// by `h` and given back; the set, as a set of values, is unchanged.
pub fn handle_set_replace(v: &mut Vec<Handle>, h: Handle) -> (r: Option<Handle>)
    ensures
        handle_views(final(v)@) == set_insert(handle_views(old(v)@), h@),
        r is Some <==> handle_views(old(v)@).contains(h@),
        r matches Some(x) ==> x@ == h@,
{
    let mut i: usize = 0;
    while i < v.len()
        invariant
            0 <= i <= v@.len(),
            v@ == old(v)@,
            forall|j: int| 0 <= j < i ==> v@[j]@ != h@,
        decreases v@.len() - i,
    {
        if v[i].same(&h) {
            let ghost before = v@;
            assert(handle_views(before)[i as int] == h@);
            let previous = v[i].copy();
            v.set(i, h);
            proof {
                assert(handle_views(v@) =~= handle_views(before));
            }
            return Some(previous);
        }
        i = i + 1;
    }
    proof {
        if handle_views(v@).contains(h@) {
            let j = choose|j: int| 0 <= j < handle_views(v@).len() && handle_views(v@)[j] == h@;
            assert(v@[j]@ == h@);
        }
    }
    let ghost before = v@;
    v.push(h);
    proof {
        assert(handle_views(v@) =~= handle_views(before).push(h@));
    }
    None
}

/// Adds `s` to the set `v`. When `v` already holds an equal scope, that scope is replaced
/// by `s` and given back; the set, as a set of values, is unchanged.
pub fn scope_set_replace(v: &mut Vec<Scope>, s: Scope) -> (r: Option<Scope>)
    ensures
        scope_views(final(v)@) == set_insert(scope_views(old(v)@), s@),
        r is Some <==> scope_views(old(v)@).contains(s@),
        r matches Some(x) ==> x@ == s@,
{
    let mut i: usize = 0;
    while i < v.len()
        invariant
            0 <= i <= v@.len(),
            v@ == old(v)@,
            forall|j: int| 0 <= j < i ==> v@[j]@ != s@,
        decreases v@.len() - i,
    {
        if v[i].same(&s) {
            let ghost before = v@;
            assert(scope_views(before)[i as int] == s@);
            let previous = v[i].copy();
            v.set(i, s);
            proof {
                assert(scope_views(v@) =~= scope_views(before));
            }
            return Some(previous);
        }
        i = i + 1;
    }
    proof {
        if scope_views(v@).contains(s@) {
            let j = choose|j: int| 0 <= j < scope_views(v@).len() && scope_views(v@)[j] == s@;
            assert(v@[j]@ == s@);
        }
    }
    let ghost before = v@;
    v.push(s);
    proof {
        assert(scope_views(v@) =~= scope_views(before).push(s@));
    }
    None
}

/// The position of the pair whose key equals `k`, if any.
pub fn find_key(m: &Vec<(Handle, Handle)>, k: &Handle) -> (r: Option<usize>)
    ensures
        match r {
            Some(i) => i < m@.len() && m@[i as int].0@ == k@ && map_keys(pair_views(m@)).contains(k@),
            None => !map_keys(pair_views(m@)).contains(k@),
        },
{
    let ghost keys = map_keys(pair_views(m@));
    let mut i: usize = 0;
    while i < m.len()
        invariant
            0 <= i <= m@.len(),
            keys == map_keys(pair_views(m@)),
            keys.len() == m@.len(),
            forall|j: int| 0 <= j < i ==> m@[j].0@ != k@,
        decreases m@.len() - i,
    {
        if m[i].0.same(k) {
            proof {
                assert(keys[i as int] == k@);
            }
            return Some(i);
        }
        i = i + 1;
    }
    proof {
        if keys.contains(k@) {
            let j = choose|j: int| 0 <= j < keys.len() && keys[j] == k@;
            assert(m@[j].0@ == k@);
        }
    }
    None
}

} // verus!
