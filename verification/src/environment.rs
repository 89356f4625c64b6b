//! The environment, read from its Lean object.
use vstd::prelude::*;
use crate::object::{LeanObj, LeanRef};
use crate::declaration::{ConstantInfo, object_of};
use crate::local_ctx::lookup_answer_ok;

verus! {

/// An environment.
pub struct Environment<'a> {
    pub obj: LeanObj<'a>,
}

impl<'a> Environment<'a> {
    /// The constant that a lookup of a name in this environment found:
    /// `found` is what the environment's lookup answered (`none`, or `some`
    /// of the constant).
    pub fn find(&self, found: &'a LeanRef) -> (r: Option<ConstantInfo<'a>>)
        requires
            lookup_answer_ok(*found),
        ensures
            *found is Scalar ==> r is None,
            *found is Obj ==> (r matches Some(c) && *c.obj.ptr == object_of(*found).objs@[0]),
    {
        match found {
            LeanRef::Obj(o) => Some(ConstantInfo { obj: LeanObj { ptr: &o.objs[0] } }),
            _ => None,
        }
    }

    /// Whether the quotient constants are initialized, from the flag the
    /// environment answered (not 0 when they are).
    pub fn is_quot_initialized(&self, flag: u8) -> (r: bool)
        ensures
            r == (flag != 0),
    {
        flag != 0
    }
}

} // verus!
