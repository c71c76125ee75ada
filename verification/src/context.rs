//! The render context threaded through the whole conversion: the resource
//! allocator, the transform frame, the canvas rectangle and the one
//! recognized option.

use vstd::prelude::*;

use crate::deferrer::{deferrer_wf, Deferrer};
use crate::frame::{frame_wf, TransformFrame};
use crate::geom::{rect_wf, Rect};

verus! {

pub struct Context {
    pub deferrer: Deferrer,
    pub frame: TransformFrame,
    /// The canvas rectangle: the bounding box given to auxiliary form
    /// XObjects such as soft-mask groups.
    pub canvas: Rect,
    /// Whether emitted auxiliary content streams request compression.
    pub compress: bool,
}

pub open spec fn ctx_wf(c: Context) -> bool {
    &&& deferrer_wf(c.deferrer)
    &&& frame_wf(c.frame)
    &&& rect_wf(c.canvas)
}

impl Context {
    /// A fresh context over the given canvas rectangle.
    pub fn new(canvas: Rect, compress: bool) -> (c: Context)
        requires
            rect_wf(canvas),
        ensures
            ctx_wf(c),
            c.deferrer.next_ref == 1,
            crate::deferrer::scopes_view(c.deferrer) =~= seq![
                Seq::<crate::object::ResEntry>::empty(),
            ],
            c.frame.current == crate::geom::mat_identity_s(),
            c.frame.saved@ =~= Seq::<crate::geom::Mat>::empty(),
            c.canvas == canvas,
            c.compress == compress,
    {
        Context { deferrer: Deferrer::new(), frame: TransformFrame::new(), canvas, compress }
    }

    /// Hand out a fresh document-wide reference.
    pub fn alloc_ref(&mut self) -> (r: u64)
        requires
            ctx_wf(*old(self)),
            old(self).deferrer.next_ref < u64::MAX,
        ensures
            ctx_wf(*final(self)),
            r == old(self).deferrer.next_ref,
            final(self).deferrer.next_ref == old(self).deferrer.next_ref + 1,
            crate::deferrer::scopes_view(final(self).deferrer) == crate::deferrer::scopes_view(
                old(self).deferrer,
            ),
            final(self).frame == old(self).frame,
            final(self).canvas == old(self).canvas,
            final(self).compress == old(self).compress,
    {
        self.deferrer.alloc_ref()
    }
}

} // verus!
