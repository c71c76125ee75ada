//! The transform frame: a stack-structured accumulator for the currently
//! effective coordinate transform, pushed and popped exactly as deep as
//! the renderer's recursion.

use vstd::prelude::*;

use crate::geom::{mat_concat_s, mat_identity_s, mat_wf, Mat};

verus! {

pub struct TransformFrame {
    pub saved: Vec<Mat>,
    pub current: Mat,
}

/// Two frames agree as data: same effective transform, same saved stack.
pub open spec fn frame_eq(a: TransformFrame, b: TransformFrame) -> bool {
    &&& a.current == b.current
    &&& a.saved@ == b.saved@
}

pub open spec fn frame_wf(f: TransformFrame) -> bool {
    &&& mat_wf(f.current)
    &&& forall|i: int| 0 <= i < f.saved@.len() ==> mat_wf(#[trigger] f.saved@[i])
}

impl TransformFrame {
    /// A fresh frame whose effective transform is the identity.
    pub fn new() -> (f: TransformFrame)
        ensures
            frame_wf(f),
            f.current == mat_identity_s(),
            f.saved@ =~= Seq::<Mat>::empty(),
    {
        TransformFrame { saved: Vec::new(), current: Mat::identity() }
    }

    /// Save the effective transform; a matching `pop` restores it.
    pub fn push(&mut self)
        requires
            frame_wf(*old(self)),
        ensures
            frame_wf(*final(self)),
            final(self).current == old(self).current,
            final(self).saved@ == old(self).saved@.push(old(self).current),
    {
        let c = self.current;
        self.saved.push(c);
    }

    /// Restore the transform saved by the matching `push`.
    pub fn pop(&mut self)
        requires
            frame_wf(*old(self)),
            old(self).saved@.len() >= 1,
        ensures
            frame_wf(*final(self)),
            final(self).current == old(self).saved@.last(),
            final(self).saved@ == old(self).saved@.drop_last(),
    {
        self.current = self.saved.pop().unwrap();
    }

    /// Right-multiply the effective transform by `t`: `t` now applies
    /// first, inside everything accumulated so far.
    pub fn append_transform(&mut self, t: &Mat)
        requires
            frame_wf(*old(self)),
            mat_wf(*t),
        ensures
            frame_wf(*final(self)),
            final(self).current == mat_concat_s(old(self).current, *t),
            final(self).saved@ == old(self).saved@,
    {
        self.current = self.current.concat(t);
    }

    /// Replace the effective transform outright, entering an independent
    /// coordinate system.
    pub fn set_transform(&mut self, t: &Mat)
        requires
            frame_wf(*old(self)),
            mat_wf(*t),
        ensures
            frame_wf(*final(self)),
            final(self).current == *t,
            final(self).saved@ == old(self).saved@,
    {
        self.current = *t;
    }

    /// The currently effective transform.
    pub fn transform(&self) -> (r: Mat)
        ensures
            r == self.current,
    {
        self.current
    }
}

} // verus!
