//! The header and the layouts of Lean heap objects, and reference counting.
//!
//! A reference count above zero belongs to an object of one thread, one
//! below zero to an object shared between threads (counted downwards), and
//! zero to a persistent object, which is never freed.
use vstd::prelude::*;
use crate::object::LeanRef;
use crate::ptr::LeanPtr;

verus! {

/// The header of every Lean heap object.
#[derive(Clone, Copy, PartialEq, Eq, Structural, Debug)]
pub struct LeanObjectHeader {
    pub rc: i32,
    pub cs_sz: u16,
    pub other: u8,
    pub tag: u8,
}

/// An array of object references.
#[derive(Debug)]
pub struct LeanArrayObject {
    pub header: LeanObjectHeader,
    pub size: usize,
    pub capacity: usize,
    pub data: Vec<LeanPtr>,
}

/// A constructor object: its object fields, then its scalar area.
#[derive(Debug)]
pub struct LeanCtorObject {
    pub header: LeanObjectHeader,
    pub objs: Vec<LeanPtr>,
}

/// An array of bytes.
#[derive(Debug)]
pub struct LeanSArrayObject {
    pub header: LeanObjectHeader,
    pub size: usize,
    pub capacity: usize,
    pub data: Vec<u8>,
}

/// A string: its size in bytes (the final 0 included), its capacity, its
/// length in characters and its UTF-8 bytes.
#[derive(Debug)]
pub struct LeanStringObject {
    pub header: LeanObjectHeader,
    pub size: usize,
    pub capacity: usize,
    pub length: usize,
    pub data: Vec<u8>,
}

/// The reference count after `n` more references: up for an object of one
/// thread, down for a shared one, unchanged for a persistent one.
pub open spec fn inc_ref_n_spec(rc: i32, n: i32) -> i32 {
    if rc > 0 {
        (rc + n) as i32
    } else if rc != 0 {
        (rc - n) as i32
    } else {
        rc
    }
}

impl LeanObjectHeader {
    /// Counts `n` more references to the object.
    pub fn inc_ref_n(&mut self, n: i32)
        requires
            old(self).rc > 0 ==> old(self).rc + n <= i32::MAX,
            old(self).rc < 0 ==> old(self).rc - n >= i32::MIN,
        ensures
            final(self).rc == inc_ref_n_spec(old(self).rc, n),
            final(self).tag == old(self).tag,
            final(self).cs_sz == old(self).cs_sz,
            final(self).other == old(self).other,
    {
        let rc = self.rc;
        if rc > 0 {
            self.rc = rc + n;
        } else if rc != 0 {
            self.rc = rc - n;
        }
    }
}

/// Counts `n` more references to the object `o`.
pub fn lean_inc_ref_n(o: &mut LeanRef, n: i32)
    requires
        *old(o) is Obj,
        old(o)->Obj_0.header.rc > 0 ==> old(o)->Obj_0.header.rc + n <= i32::MAX,
        old(o)->Obj_0.header.rc < 0 ==> old(o)->Obj_0.header.rc - n >= i32::MIN,
    ensures
        *final(o) is Obj,
        final(o)->Obj_0.header.rc == inc_ref_n_spec(old(o)->Obj_0.header.rc, n),
        final(o)->Obj_0.header.tag == old(o)->Obj_0.header.tag,
        final(o)->Obj_0.objs == old(o)->Obj_0.objs,
        final(o)->Obj_0.scalars == old(o)->Obj_0.scalars,
{
    match o {
        LeanRef::Obj(b) => {
            b.header.inc_ref_n(n);
        },
        _ => {},
    }
}

/// Counts one more reference to `o`; a boxed scalar is not counted.
pub fn lean_inc(o: &mut LeanRef)
    requires
        !(*old(o) is Null),
        *old(o) is Obj && old(o)->Obj_0.header.rc > 0 ==> old(o)->Obj_0.header.rc < i32::MAX,
        *old(o) is Obj && old(o)->Obj_0.header.rc < 0 ==> old(o)->Obj_0.header.rc > i32::MIN,
    ensures
        *old(o) is Scalar ==> *final(o) == *old(o),
        *old(o) is Obj ==> {
            &&& *final(o) is Obj
            &&& final(o)->Obj_0.header.rc == inc_ref_n_spec(old(o)->Obj_0.header.rc, 1)
            &&& final(o)->Obj_0.header.tag == old(o)->Obj_0.header.tag
            &&& final(o)->Obj_0.objs == old(o)->Obj_0.objs
            &&& final(o)->Obj_0.scalars == old(o)->Obj_0.scalars
        },
{
    match o {
        LeanRef::Obj(b) => {
            b.header.inc_ref_n(1);
        },
        _ => {},
    }
}

/// Drops one reference to `o`.  An object of one thread with more than one
/// reference loses one; when the count is one, or the object is shared
/// between threads, the answer is `true`: the slow path of the runtime must
/// finish the job (free it, or count down atomically).  A boxed scalar or a
/// persistent object is left alone.
pub fn lean_dec(o: &mut LeanRef) -> (needs_slow_path: bool)
    requires
        !(*old(o) is Null),
    ensures
        *old(o) is Scalar ==> *final(o) == *old(o) && !needs_slow_path,
        *old(o) is Obj ==> {
            let rc = old(o)->Obj_0.header.rc;
            &&& *final(o) is Obj
            &&& final(o)->Obj_0.header.rc == dec_rc_spec(rc)
            &&& needs_slow_path == dec_needs_slow_path_spec(rc)
            &&& final(o)->Obj_0.header.tag == old(o)->Obj_0.header.tag
            &&& final(o)->Obj_0.objs == old(o)->Obj_0.objs
            &&& final(o)->Obj_0.scalars == old(o)->Obj_0.scalars
        },
{
    match o {
        LeanRef::Obj(b) => {
            let rc = b.header.rc;
            if rc > 1 {
                b.header.rc = rc - 1;
                false
            } else {
                rc != 0
            }
        },
        _ => false,
    }
}

/// Whether `o` is most likely referenced only here: a boxed scalar, or an
/// object with a count of one (or minus one, shared).
pub fn is_likely_unshared(o: &LeanRef) -> (r: bool)
    requires
        !(*o is Null),
    ensures
        r == (match *o {
            LeanRef::Obj(b) => b.header.rc == 1 || b.header.rc == -1,
            _ => true,
        }),
{
    match o {
        LeanRef::Obj(b) => b.header.rc == 1 || b.header.rc == -1,
        _ => true,
    }
}

/// Whether `o` is an object of one thread with more than one reference.
pub fn is_shared(o: &LeanRef) -> (r: bool)
    requires
        !(*o is Null),
    ensures
        r == (match *o {
            LeanRef::Obj(b) => b.header.rc > 1,
            _ => false,
        }),
{
    match o {
        LeanRef::Obj(b) => b.header.rc > 1,
        _ => false,
    }
}

/// The reference count after dropping one reference without the slow path.
pub open spec fn dec_rc_spec(rc: i32) -> i32 {
    if rc > 1 {
        (rc - 1) as i32
    } else {
        rc
    }
}

/// Whether dropping one reference needs the slow path of the runtime.
pub open spec fn dec_needs_slow_path_spec(rc: i32) -> bool {
    rc <= 1 && rc != 0
}

/// Counting one more reference to an object of one thread, or a persistent
/// one, and then dropping one leaves its count as it was, without the slow
/// path.
pub proof fn lemma_inc_then_dec(rc: i32)
    requires
        0 <= rc < i32::MAX,
    ensures
        dec_rc_spec(inc_ref_n_spec(rc, 1)) == rc,
        !dec_needs_slow_path_spec(inc_ref_n_spec(rc, 1)),
{
}

} // verus!
