//! The scoped resource allocator: a monotone document-wide reference
//! counter and a stack of scopes, each an ordered list of name-to-reference
//! bindings.
//!
//! A name is minted from the reference it binds, so every name handed out
//! over the allocator's life is distinct. Closing a scope writes its
//! bindings into a resource dictionary; the base scope stays open for the
//! allocator's whole life and is drained only by consuming the allocator.

use vstd::prelude::*;

use crate::object::{ResEntry, ResKind, ResName, ResourceDict};

verus! {

/// One open scope: the bindings registered since the matching `push`.
pub struct Scope {
    pub entries: Vec<ResEntry>,
}

/// The scoped name/reference allocator.
pub struct Deferrer {
    pub next_ref: u64,
    pub scopes: Vec<Scope>,
}

/// The scope stack as plain data: one binding sequence per open scope,
/// innermost last.
pub open spec fn scopes_view(d: Deferrer) -> Seq<Seq<ResEntry>> {
    d.scopes@.map_values(|s: Scope| s.entries@)
}

/// No two bindings share a name.
pub open spec fn entries_distinct(s: Seq<ResEntry>) -> bool {
    forall|i: int, j: int|
        0 <= i < j < s.len() ==> (#[trigger] s[i]).name.index != (#[trigger] s[j]).name.index
}

/// Every binding's name was minted from a reference below `bound`.
pub open spec fn entries_below(s: Seq<ResEntry>, bound: u64) -> bool {
    forall|i: int| 0 <= i < s.len() ==> (#[trigger] s[i]).name.index < bound
}

/// Some binding in the scope already carries the name minted from `idx`.
pub open spec fn scope_has_index(s: Seq<ResEntry>, idx: u64) -> bool {
    exists|i: int| 0 <= i < s.len() && (#[trigger] s[i]).name.index == idx
}

pub open spec fn deferrer_wf(d: Deferrer) -> bool {
    &&& 1 <= d.next_ref
    &&& scopes_view(d).len() >= 1
    &&& forall|k: int| 0 <= k < scopes_view(d).len() ==> entries_distinct(#[trigger] scopes_view(d)[k])
    &&& forall|k: int|
        0 <= k < scopes_view(d).len() ==> entries_below(#[trigger] scopes_view(d)[k], d.next_ref)
}

/// The scope stack kept its depth, outer scopes are untouched, and the
/// innermost scope grew only with bindings minted at or above `bound`.
pub open spec fn scopes_extended_ge(
    old_v: Seq<Seq<ResEntry>>,
    new_v: Seq<Seq<ResEntry>>,
    bound: u64,
) -> bool {
    &&& new_v.len() == old_v.len()
    &&& forall|k: int| 0 <= k < old_v.len() - 1 ==> #[trigger] new_v[k] == old_v[k]
    &&& old_v.last().is_prefix_of(new_v.last())
    &&& forall|j: int|
        old_v.last().len() <= j < new_v.last().len() ==> (#[trigger] new_v.last()[j]).name.index
            >= bound
}

impl Deferrer {
    /// A fresh allocator with its base scope open and no reference handed
    /// out yet.
    pub fn new() -> (d: Deferrer)
        ensures
            deferrer_wf(d),
            d.next_ref == 1,
            scopes_view(d) =~= seq![Seq::<ResEntry>::empty()],
    {
        let mut scopes: Vec<Scope> = Vec::new();
        scopes.push(Scope { entries: Vec::new() });
        let d = Deferrer { next_ref: 1, scopes };
        proof {
            assert(scopes_view(d) =~= seq![Seq::<ResEntry>::empty()]);
        }
        d
    }

    /// Hand out a fresh, never-reused document-wide reference.
    pub fn alloc_ref(&mut self) -> (r: u64)
        requires
            deferrer_wf(*old(self)),
            old(self).next_ref < u64::MAX,
        ensures
            deferrer_wf(*final(self)),
            r == old(self).next_ref,
            final(self).next_ref == old(self).next_ref + 1,
            scopes_view(*final(self)) == scopes_view(*old(self)),
    {
        let r = self.next_ref;
        self.next_ref = self.next_ref + 1;
        proof {
            assert forall|k: int| 0 <= k < scopes_view(*self).len() implies entries_below(
                #[trigger] scopes_view(*self)[k],
                self.next_ref,
            ) by {
                assert(entries_below(scopes_view(*old(self))[k], old(self).next_ref));
            }
        }
        r
    }

    /// Open a new innermost scope.
    pub fn push(&mut self)
        requires
            deferrer_wf(*old(self)),
        ensures
            deferrer_wf(*final(self)),
            final(self).next_ref == old(self).next_ref,
            scopes_view(*final(self)) =~= scopes_view(*old(self)).push(Seq::<ResEntry>::empty()),
    {
        self.scopes.push(Scope { entries: Vec::new() });
        proof {
            assert(scopes_view(*self) =~= scopes_view(*old(self)).push(Seq::<ResEntry>::empty()));
        }
    }

    /// Close the innermost scope, writing every binding it registered into
    /// `dict`. The base scope cannot be popped.
    pub fn pop(&mut self, dict: &mut ResourceDict)
        requires
            deferrer_wf(*old(self)),
            scopes_view(*old(self)).len() >= 2,
        ensures
            deferrer_wf(*final(self)),
            final(self).next_ref == old(self).next_ref,
            scopes_view(*final(self)) =~= scopes_view(*old(self)).drop_last(),
            final(dict).entries@ == old(dict).entries@ + scopes_view(*old(self)).last(),
            entries_distinct(scopes_view(*old(self)).last()),
    {
        let scope = self.scopes.pop().unwrap();
        proof {
            assert(scopes_view(*self) =~= scopes_view(*old(self)).drop_last());
            assert(scope.entries@ == scopes_view(*old(self)).last());
            assert forall|k: int| 0 <= k < scopes_view(*self).len() implies entries_distinct(
                #[trigger] scopes_view(*self)[k],
            ) && entries_below(scopes_view(*self)[k], self.next_ref) by {
                assert(scopes_view(*self)[k] == scopes_view(*old(self))[k]);
            }
        }
        dump_entries(scope.entries, dict);
    }

    /// Drain the base scope into `dict`, ending the allocator's life.
    pub fn finish(self, dict: &mut ResourceDict)
        requires
            deferrer_wf(self),
            scopes_view(self).len() == 1,
        ensures
            final(dict).entries@ == old(dict).entries@ + scopes_view(self)[0],
            entries_distinct(scopes_view(self)[0]),
    {
        let mut s = self;
        let scope = s.scopes.pop().unwrap();
        proof {
            assert(scope.entries@ == scopes_view(self)[0]);
        }
        dump_entries(scope.entries, dict);
    }

    /// Register `target` in the innermost scope under a fresh name of the
    /// given category.
    fn register(&mut self, kind: ResKind, target: u64) -> (r: ResName)
        requires
            deferrer_wf(*old(self)),
            target < old(self).next_ref,
            !scope_has_index(scopes_view(*old(self)).last(), target),
        ensures
            deferrer_wf(*final(self)),
            final(self).next_ref == old(self).next_ref,
            r == (ResName { kind, index: target }),
            scopes_view(*final(self)) =~= scopes_view(*old(self)).update(
                scopes_view(*old(self)).len() - 1,
                scopes_view(*old(self)).last().push(ResEntry { name: r, target }),
            ),
    {
        let name = ResName { kind, index: target };
        let mut scope = self.scopes.pop().unwrap();
        scope.entries.push(ResEntry { name, target });
        self.scopes.push(scope);
        proof {
            let ov = scopes_view(*old(self));
            let nv = scopes_view(*self);
            assert(nv =~= ov.update(ov.len() - 1, ov.last().push(ResEntry { name, target })));
            assert forall|kk: int| 0 <= kk < nv.len() implies entries_distinct(#[trigger] nv[kk])
                && entries_below(nv[kk], self.next_ref) by {
                assert(entries_distinct(ov[kk]));
                assert(entries_below(ov[kk], old(self).next_ref));
                if kk == nv.len() - 1 {
                    assert(forall|i: int|
                        0 <= i < ov.last().len() ==> (#[trigger] ov.last()[i]).name.index
                            != target);
                }
            }
        }
        name
    }

    /// Register a pattern object and return its content-stream name.
    pub fn add_pattern(&mut self, target: u64) -> (r: ResName)
        requires
            deferrer_wf(*old(self)),
            target < old(self).next_ref,
            !scope_has_index(scopes_view(*old(self)).last(), target),
        ensures
            deferrer_wf(*final(self)),
            final(self).next_ref == old(self).next_ref,
            r == (ResName { kind: ResKind::Pattern, index: target }),
            scopes_view(*final(self)) =~= scopes_view(*old(self)).update(
                scopes_view(*old(self)).len() - 1,
                scopes_view(*old(self)).last().push(ResEntry { name: r, target }),
            ),
    {
        self.register(ResKind::Pattern, target)
    }

    /// Register a shading object and return its content-stream name.
    pub fn add_shading(&mut self, target: u64) -> (r: ResName)
        requires
            deferrer_wf(*old(self)),
            target < old(self).next_ref,
            !scope_has_index(scopes_view(*old(self)).last(), target),
        ensures
            deferrer_wf(*final(self)),
            final(self).next_ref == old(self).next_ref,
            r == (ResName { kind: ResKind::Shading, index: target }),
            scopes_view(*final(self)) =~= scopes_view(*old(self)).update(
                scopes_view(*old(self)).len() - 1,
                scopes_view(*old(self)).last().push(ResEntry { name: r, target }),
            ),
    {
        self.register(ResKind::Shading, target)
    }

    /// Register an extended graphics state and return its name.
    pub fn add_graphics_state(&mut self, target: u64) -> (r: ResName)
        requires
            deferrer_wf(*old(self)),
            target < old(self).next_ref,
            !scope_has_index(scopes_view(*old(self)).last(), target),
        ensures
            deferrer_wf(*final(self)),
            final(self).next_ref == old(self).next_ref,
            r == (ResName { kind: ResKind::GraphicsState, index: target }),
            scopes_view(*final(self)) =~= scopes_view(*old(self)).update(
                scopes_view(*old(self)).len() - 1,
                scopes_view(*old(self)).last().push(ResEntry { name: r, target }),
            ),
    {
        self.register(ResKind::GraphicsState, target)
    }

    /// Register a form XObject and return its content-stream name.
    pub fn add_x_object(&mut self, target: u64) -> (r: ResName)
        requires
            deferrer_wf(*old(self)),
            target < old(self).next_ref,
            !scope_has_index(scopes_view(*old(self)).last(), target),
        ensures
            deferrer_wf(*final(self)),
            final(self).next_ref == old(self).next_ref,
            r == (ResName { kind: ResKind::XObject, index: target }),
            scopes_view(*final(self)) =~= scopes_view(*old(self)).update(
                scopes_view(*old(self)).len() - 1,
                scopes_view(*old(self)).last().push(ResEntry { name: r, target }),
            ),
    {
        self.register(ResKind::XObject, target)
    }
}

/// Append every binding of a closed scope to a resource dictionary.
fn dump_entries(entries: Vec<ResEntry>, dict: &mut ResourceDict)
    ensures
        final(dict).entries@ == old(dict).entries@ + entries@,
{
    let n = entries.len();
    let mut i: usize = 0;
    while i < n
        invariant
            n == entries.len(),
            i <= n,
            dict.entries@ == old(dict).entries@ + entries@.subrange(0, i as int),
        decreases n - i,
    {
        let e = entries[i];
        dict.entries.push(e);
        proof {
            assert(entries@.subrange(0, i + 1 as int) =~= entries@.subrange(0, i as int).push(
                entries@[i as int],
            ));
        }
        i = i + 1;
    }
    proof {
        assert(entries@.subrange(0, n as int) =~= entries@);
        assert(dict.entries@ =~= old(dict).entries@ + entries@);
    }
}

/// Scope extension is reflexive.
pub proof fn lemma_extend_refl(v: Seq<Seq<ResEntry>>, bound: u64)
    requires
        v.len() >= 1,
    ensures
        scopes_extended_ge(v, v, bound),
{
    assert(v.last().subrange(0, v.last().len() as int) =~= v.last());
}

/// Scope extensions compose, the later one minting at or above the
/// earlier bound.
pub proof fn lemma_extend_trans(
    v0: Seq<Seq<ResEntry>>,
    v1: Seq<Seq<ResEntry>>,
    v2: Seq<Seq<ResEntry>>,
    n0: u64,
    n1: u64,
)
    requires
        scopes_extended_ge(v0, v1, n0),
        scopes_extended_ge(v1, v2, n1),
        n1 >= n0,
    ensures
        scopes_extended_ge(v0, v2, n0),
{
    assert(v0.last().len() <= v1.last().len());
    assert forall|m: int| 0 <= m < v0.last().len() implies v2.last()[m] == v0.last()[m] by {
        assert(v1.last()[m] == v0.last().subrange(0, v0.last().len() as int)[m]);
        assert(v2.last()[m] == v1.last().subrange(0, v1.last().len() as int)[m]);
    }
    assert(v2.last().subrange(0, v0.last().len() as int) =~= v0.last());
    assert forall|j: int|
        v0.last().len() <= j < v2.last().len() implies (#[trigger] v2.last()[j]).name.index
        >= n0 by {
        if j < v1.last().len() {
            assert(v1.last()[j] == v1.last().subrange(0, v1.last().len() as int)[j]);
        }
    }
}

/// Registering one binding minted at or above the bound is a scope
/// extension.
pub proof fn lemma_extend_push(v: Seq<Seq<ResEntry>>, e: ResEntry, bound: u64)
    requires
        v.len() >= 1,
        e.name.index >= bound,
    ensures
        scopes_extended_ge(v, v.update(v.len() - 1, v.last().push(e)), bound),
{
    let w = v.update(v.len() - 1, v.last().push(e));
    assert(w.last() == v.last().push(e));
    assert(w.last().subrange(0, v.last().len() as int) =~= v.last());
}

} // verus!
