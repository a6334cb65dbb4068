//! The conversion registry: a visited-type set and the classifier walk that
//! registers every type reachable from a function signature exactly once.
//!
//! The walk checks membership before recursing into a type's structural
//! children, so it terminates on cyclic type graphs, and a second request
//! for an already-registered type identifier is a no-op.

use vstd::prelude::*;
use crate::model::{kind_wf, ref_wf, typedef_wf, wf, Model, TypeDefKind, TypeRef};

verus! {

/// The set of type identifiers whose conversion code has been emitted,
/// over a type arena of fixed size.
pub struct VisitedSet {
    bits: Vec<bool>,
}

impl VisitedSet {
    /// The size of the type arena this set ranges over.
    pub closed spec fn size(self) -> int {
        self.bits@.len() as int
    }

    /// Whether identifier `i` has been recorded.
    pub closed spec fn has(self, i: int) -> bool {
        0 <= i < self.bits@.len() && self.bits@[i]
    }

    /// A fresh set over an arena of `n` types, with nothing recorded.
    pub fn new(n: usize) -> (r: VisitedSet)
        ensures
            r.size() == n,
            forall|i: int| !r.has(i),
    {
        let mut bits: Vec<bool> = Vec::new();
        let mut k: usize = 0;
        while k < n
            invariant
                k <= n,
                bits@.len() == k,
                forall|i: int| 0 <= i < k ==> !bits@[i],
            decreases n - k,
        {
            bits.push(false);
            k += 1;
        }
        VisitedSet { bits }
    }

    /// Whether identifier `i` has been recorded.
    pub fn contains(&self, i: usize) -> (r: bool)
        requires
            i < self.size(),
        ensures
            r == self.has(i as int),
    {
        self.bits[i]
    }

    /// Records identifier `i`; recording it a second time changes nothing.
    pub fn record(&mut self, i: usize)
        requires
            i < old(self).size(),
        ensures
            final(self).size() == old(self).size(),
            final(self).has(i as int),
            forall|j: int| j != i ==> final(self).has(j) == old(self).has(j),
    {
        self.bits.set(i, true);
    }
}

/// A recorded identifier always lies inside the arena the set ranges
/// over: together with the registry's pairwise-distinct emission this
/// bounds the visited set's size by the total distinct type count.
pub proof fn lemma_visited_in_range(s: VisitedSet, i: int)
    ensures
        s.has(i) ==> 0 <= i < s.size(),
{
}

/// The identifiers in range that are not yet recorded.
pub open spec fn unvisited(s: VisitedSet) -> Set<int> {
    Set::new(|i: int| 0 <= i < s.size() && !s.has(i))
}

/// The unvisited set is finite and no larger than the arena.
pub proof fn lemma_unvisited_finite(s: VisitedSet)
    requires
        s.size() >= 0,
    ensures
        unvisited(s).finite(),
        unvisited(s).len() <= s.size(),
{
    vstd::set_lib::lemma_int_range(0, s.size());
    vstd::set_lib::lemma_len_subset(
        unvisited(s),
        vstd::set_lib::set_int_range(0, s.size()),
    );
}

/// Recording one fresh identifier shrinks the unvisited set strictly; any
/// growth of the visited set can only shrink it.
pub proof fn lemma_unvisited_shrinks(a: VisitedSet, b: VisitedSet)
    requires
        a.size() == b.size(),
        forall|j: int| a.has(j) ==> b.has(j),
    ensures
        unvisited(b).subset_of(unvisited(a)),
        unvisited(b).len() <= unvisited(a).len(),
{
    lemma_unvisited_finite(a);
    vstd::set_lib::lemma_len_subset(unvisited(b), unvisited(a));
}

/// Whether `t` is a structural child of a type of shape `kind`: a record
/// field type, a variant payload, a tuple element, an option, result or
/// list element, the resource behind a handle, or the target of an alias.
pub open spec fn kind_has_child(kind: TypeDefKind, t: TypeRef) -> bool {
    match kind {
        TypeDefKind::Record(fields) => exists|j: int|
            0 <= j < fields.len() && (#[trigger] fields[j].ty) == t,
        TypeDefKind::Variant(cases) => exists|j: int|
            0 <= j < cases.len() && (#[trigger] cases[j].payload) == Some(t),
        TypeDefKind::Enumeration(_) => false,
        TypeDefKind::Flags(_) => false,
        TypeDefKind::Tuple(elems) => exists|j: int|
            0 <= j < elems@.len() && (#[trigger] elems@[j]) == t,
        TypeDefKind::OptionOf(e) => t == e,
        TypeDefKind::ResultOf(ok, err) => Some(t) == ok || Some(t) == err,
        TypeDefKind::ListOf(e) => t == e,
        TypeDefKind::Resource => false,
        TypeDefKind::Handle(resource) => t == (TypeRef::Id(resource)),
        TypeDefKind::Alias(e) => t == e,
    }
}

/// A structural child of a well-formed type is itself a well-formed reference.
pub proof fn lemma_child_wf(m: Model, self_id: int, kind: TypeDefKind, t: TypeRef)
    requires
        kind_wf(m, self_id, kind),
        kind_has_child(kind, t),
    ensures
        ref_wf(m, t),
{
}

proof fn lemma_tuple_child(elems: Vec<TypeRef>, j: int)
    requires
        0 <= j < elems@.len(),
    ensures
        kind_has_child(TypeDefKind::Tuple(elems), elems@[j]),
{
    let k = TypeDefKind::Tuple(elems);
    match k {
        TypeDefKind::Tuple(e2) => {
            assert(0 <= j < e2@.len() && e2@[j] == elems@[j]);
        },
        _ => {},
    }
}

/// The structural children of a type, as a list.
fn children_of(kind: &TypeDefKind) -> (r: Vec<TypeRef>)
    ensures
        forall|k: int| 0 <= k < r@.len() ==> kind_has_child(*kind, #[trigger] r@[k]),
{
    let mut r: Vec<TypeRef> = Vec::new();
    match kind {
        TypeDefKind::Record(fields) => {
            let mut j: usize = 0;
            while j < fields.len()
                invariant
                    j <= fields@.len(),
                    forall|k: int| 0 <= k < r@.len() ==> kind_has_child(TypeDefKind::Record(*fields), #[trigger] r@[k]),
                decreases fields@.len() - j,
            {
                r.push(fields[j].ty);
                j += 1;
            }
        },
        TypeDefKind::Variant(cases) => {
            let mut j: usize = 0;
            while j < cases.len()
                invariant
                    j <= cases@.len(),
                    forall|k: int| 0 <= k < r@.len() ==> kind_has_child(TypeDefKind::Variant(*cases), #[trigger] r@[k]),
                decreases cases@.len() - j,
            {
                match cases[j].payload {
                    Some(t) => { r.push(t); },
                    None => {},
                }
                j += 1;
            }
        },
        TypeDefKind::Enumeration(_) => {},
        TypeDefKind::Flags(_) => {},
        TypeDefKind::Tuple(elems) => {
            let mut j: usize = 0;
            while j < elems.len()
                invariant
                    j <= elems@.len(),
                    forall|k: int| 0 <= k < r@.len() ==> kind_has_child(TypeDefKind::Tuple(*elems), #[trigger] r@[k]),
                decreases elems@.len() - j,
            {
                r.push(elems[j]);
                proof {
                    lemma_tuple_child(*elems, j as int);
                }
                j += 1;
            }
        },
        TypeDefKind::OptionOf(e) => { r.push(*e); },
        TypeDefKind::ResultOf(ok, err) => {
            match ok {
                Some(t) => { r.push(*t); },
                None => {},
            }
            match err {
                Some(t) => { r.push(*t); },
                None => {},
            }
        },
        TypeDefKind::ListOf(e) => { r.push(*e); },
        TypeDefKind::Resource => {},
        TypeDefKind::Handle(resource) => { r.push(TypeRef::Id(*resource)); },
        TypeDefKind::Alias(e) => { r.push(*e); },
    }
    r
}

/// One bookkeeping step of the registry: the visited set only grows over
/// a fixed arena, the emitted list only gains entries, and every gained
/// entry is a fresh, in-range type identifier, gained at most once.
pub open spec fn reg_step(m: Model, v0: VisitedSet, v1: VisitedSet, o0: Seq<usize>, o1: Seq<usize>) -> bool {
    &&& v1.size() == v0.size()
    &&& forall|j: int| v0.has(j) ==> v1.has(j)
    &&& o1.len() >= o0.len()
    &&& forall|k: int| 0 <= k < o0.len() ==> o1[k] == o0[k]
    &&& forall|k: int|
        o0.len() <= k < o1.len() ==> (#[trigger] o1[k]) < m.types.len() && v1.has(o1[k] as int)
            && !v0.has(o1[k] as int)
    &&& forall|k1: int, k2: int| o0.len() <= k1 < k2 < o1.len() ==> o1[k1] != o1[k2]
}

/// Registry steps compose: what was emitted in the first step is visited
/// before the second, so the two steps never emit the same identifier.
pub proof fn lemma_reg_step_trans(
    m: Model,
    v0: VisitedSet,
    v1: VisitedSet,
    v2: VisitedSet,
    o0: Seq<usize>,
    o1: Seq<usize>,
    o2: Seq<usize>,
)
    requires
        reg_step(m, v0, v1, o0, o1),
        reg_step(m, v1, v2, o1, o2),
    ensures
        reg_step(m, v0, v2, o0, o2),
{
    assert forall|k: int|
        o0.len() <= k < o2.len() implies (#[trigger] o2[k]) < m.types.len() && v2.has(
        o2[k] as int,
    ) && !v0.has(o2[k] as int) by {
        if k < o1.len() {
            assert(o2[k] == o1[k]);
        }
    }
    assert forall|k1: int, k2: int|
        o0.len() <= k1 < k2 < o2.len() implies o2[k1] != o2[k2] by {
        if k1 < o1.len() && k2 >= o1.len() {
            assert(o2[k1] == o1[k1]);
            assert(v1.has(o1[k1] as int));
            assert(!v1.has(o2[k2] as int));
        } else if k2 < o1.len() {
            assert(o2[k1] == o1[k1] && o2[k2] == o1[k2]);
        }
    }
}

/// Registers the type behind `t` and, the first time it is seen, every
/// type reachable from it, appending to `out` the identifier of each type
/// that needs a conversion implementation, in emission order.
///
/// Aliases are resolved transparently: an alias is recorded as visited so
/// the walk stays linear, but no conversion entry is appended for it.
///
/// Exactly-once registration: every appended identifier was unvisited
/// before the call and the appended identifiers are pairwise distinct, so
/// over any sequence of calls each type identifier is emitted at most
/// once; a call on an already-visited identifier changes nothing.
pub fn register_type(m: &Model, visited: &mut VisitedSet, t: TypeRef, out: &mut Vec<usize>)
    requires
        wf(*m),
        ref_wf(*m, t),
        old(visited).size() == m.types.len(),
    ensures
        reg_step(*m, *old(visited), *final(visited), old(out)@, final(out)@),
        (match t {
            TypeRef::Id(i) => final(visited).has(i as int),
            TypeRef::Prim(_) => true,
        }),
        (match t {
            TypeRef::Id(i) => old(visited).has(i as int) ==> (final(out)@ == old(out)@
                && (forall|j: int| final(visited).has(j) == old(visited).has(j))),
            TypeRef::Prim(_) => final(out)@ == old(out)@
                && (forall|j: int| final(visited).has(j) == old(visited).has(j)),
        }),
        (match t {
            TypeRef::Id(i) => (!old(visited).has(i as int) && !(m.types@[i as int].kind
                is Alias)) ==> final(out)@.contains(i),
            TypeRef::Prim(_) => true,
        }),
    decreases unvisited(*visited).len(), 0int,
{
    match t {
        TypeRef::Prim(_) => {},
        TypeRef::Id(i) => {
            if visited.contains(i) {
                return;
            }
            let ghost entry = *visited;
            visited.record(i);
            proof {
                lemma_unvisited_finite(entry);
                assert(unvisited(*visited) =~= unvisited(entry).remove(i as int));
                assert(unvisited(entry).contains(i as int));
                assert(unvisited(*visited).len() < unvisited(entry).len());
            }
            let is_alias = matches!(&m.types[i].kind, TypeDefKind::Alias(_));
            if !is_alias {
                out.push(i);
            }
            let ghost pos = out@.len() - 1;
            proof {
                assert(typedef_wf(*m, i as int, m.types@[i as int]));
                if !(m.types@[i as int].kind is Alias) {
                    assert(out@[pos] == i);
                }
            }
            let children = children_of(&m.types[i].kind);
            assert forall|k: int| 0 <= k < children@.len() implies ref_wf(
                *m,
                #[trigger] children@[k],
            ) by {
                lemma_child_wf(*m, i as int, m.types@[i as int].kind, children@[k]);
            }
            register_children(m, visited, children, out);
            proof {
                if !(m.types@[i as int].kind is Alias) {
                    assert(out@[pos] == i);
                    assert(out@.contains(i));
                }
            }
        },
    }
}

/// Registers each of `children` in order; the bookkeeping mirrors
/// [`register_type`].
fn register_children(m: &Model, visited: &mut VisitedSet, children: Vec<TypeRef>, out: &mut Vec<usize>)
    requires
        wf(*m),
        forall|k: int| 0 <= k < children@.len() ==> ref_wf(*m, #[trigger] children@[k]),
        old(visited).size() == m.types.len(),
    ensures
        reg_step(*m, *old(visited), *final(visited), old(out)@, final(out)@),
    decreases unvisited(*visited).len(), 1int,
{
    let mut idx: usize = 0;
    while idx < children.len()
        invariant
            wf(*m),
            forall|k: int| 0 <= k < children@.len() ==> ref_wf(*m, #[trigger] children@[k]),
            idx <= children@.len(),
            old(visited).size() == m.types.len(),
            reg_step(*m, *old(visited), *visited, old(out)@, out@),
        decreases children@.len() - idx,
    {
        let ghost pre = *visited;
        let ghost pre_out = out@;
        proof {
            lemma_unvisited_shrinks(*old(visited), *visited);
        }
        register_type(m, visited, children[idx], out);
        proof {
            lemma_reg_step_trans(*m, *old(visited), pre, *visited, old(out)@, pre_out, out@);
        }
        idx += 1;
    }
}

/// The number of conversion implementations ever emitted is bounded by the
/// number of distinct types: a list of pairwise-distinct identifiers that
/// all point into an arena of `n` types is no longer than `n`.
pub proof fn lemma_registration_bounded(out: Seq<usize>, n: int)
    requires
        n >= 0,
        forall|k: int| 0 <= k < out.len() ==> (#[trigger] out[k]) < n,
        forall|k1: int, k2: int| 0 <= k1 < k2 < out.len() ==> out[k1] != out[k2],
    ensures
        out.len() <= n,
{
    let ints = out.map_values(|u: usize| u as int);
    assert(ints.no_duplicates());
    ints.unique_seq_to_set();
    vstd::set_lib::lemma_int_range(0, n);
    assert forall|x: int| ints.to_set().contains(x) implies vstd::set_lib::set_int_range(
        0,
        n,
    ).contains(x) by {
        let k = choose|k: int| 0 <= k < ints.len() && ints[k] == x;
        assert(0 <= ints[k] < n);
    }
    vstd::set_lib::lemma_len_subset(ints.to_set(), vstd::set_lib::set_int_range(0, n));
}

} // verus!
