//! Local declarations and the local context, read from their Lean objects.
use vstd::prelude::*;
use crate::object::{LeanObj, LeanRef};
pub use crate::expr::BinderInfo;
use crate::expr::binder_info_of;
use crate::declaration::object_of;

verus! {

/// A local declaration: an assumption (tag 0) or a local definition.
pub struct LocalDecl<'a> {
    pub obj: LeanObj<'a>,
}

impl<'a> LocalDecl<'a> {
    /// Its index in the local context.
    pub fn index(&self) -> (r: usize)
        requires
            self.obj.has_field(0),
            self.obj.field(0) is Scalar,
        ensures
            r == self.obj.field(0)->Scalar_0,
    {
        match self.obj.ctor_obj(0) {
            LeanRef::Scalar(n) => *n,
            _ => 0,
        }
    }

    /// Its free variable name.
    pub fn name(&self) -> (r: &'a LeanRef)
        requires
            self.obj.has_field(1),
        ensures
            *r == self.obj.field(1),
    {
        self.obj.ctor_obj(1)
    }

    /// The name the user gave it.
    pub fn user_name(&self) -> (r: &'a LeanRef)
        requires
            self.obj.has_field(2),
        ensures
            *r == self.obj.field(2),
    {
        self.obj.ctor_obj(2)
    }

    /// Its type.
    pub fn type_(&self) -> (r: &'a LeanRef)
        requires
            self.obj.has_field(3),
        ensures
            *r == self.obj.field(3),
    {
        self.obj.ctor_obj(3)
    }

    /// The value of a local definition; `None` for an assumption.
    pub fn value(&self) -> (r: Option<&'a LeanRef>)
        requires
            *self.obj.ptr is Obj,
            self.obj.tag() != 0 ==> self.obj.has_field(4),
        ensures
            self.obj.tag() == 0 ==> r is None,
            self.obj.tag() != 0 ==> (r matches Some(v) && *v == self.obj.field(4)),
    {
        if self.obj.ctor_tag() == 0 {
            None
        } else {
            Some(self.obj.ctor_obj(4))
        }
    }

    /// The binder annotation of an assumption; `None` for a local
    /// definition.
    pub fn binder_info(&self) -> (r: Option<BinderInfo>)
        requires
            *self.obj.ptr is Obj,
            self.obj.tag() == 0 ==> self.obj.has_scalar(0) && self.obj.scalar(0) < 5,
        ensures
            self.obj.tag() == 0 ==> r == Some(binder_info_of(self.obj.scalar(0))),
            self.obj.tag() != 0 ==> r is None,
    {
        if self.obj.ctor_tag() == 0 {
            Some(BinderInfo::from_u8(self.obj.ctor_scalar_get_u8(0)))
        } else {
            None
        }
    }
}

/// What a lookup answered: a boxed scalar (`none`), or an object whose first
/// field is the declaration found.
pub open spec fn lookup_answer_ok(found: LeanRef) -> bool {
    match found {
        LeanRef::Null => false,
        LeanRef::Scalar(_) => true,
        LeanRef::Obj(o) => o.objs@.len() >= 1 && !(o.objs@[0] is Null),
    }
}

/// A local context.
pub struct LocalCtx<'a> {
    pub obj: LeanObj<'a>,
}

impl<'a> LocalCtx<'a> {
    /// The declaration that a lookup of a name in this context found: `found`
    /// is what the context's lookup answered (`none`, or `some` of the
    /// declaration).
    pub fn find(&self, found: &'a LeanRef) -> (r: Option<LocalDecl<'a>>)
        requires
            lookup_answer_ok(*found),
        ensures
            *found is Scalar ==> r is None,
            *found is Obj ==> (r matches Some(d) && *d.obj.ptr == object_of(*found).objs@[0]),
    {
        match found {
            LeanRef::Obj(o) => Some(LocalDecl { obj: LeanObj { ptr: &o.objs[0] } }),
            _ => None,
        }
    }
}

} // verus!
