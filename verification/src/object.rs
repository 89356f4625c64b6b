//! Lean heap objects, held as plain values.
//!
//! A reference is null, a boxed scalar, or an object.  An object is a
//! constructor: a header (reference count and tag), its object fields, and
//! its scalar area (bytes; an 8-byte word there is read little-endian).
use vstd::prelude::*;
use crate::layout::LeanObjectHeader;

verus! {

/// A Lean object reference.
#[derive(Debug)]
pub enum LeanRef {
    Null,
    /// A boxed scalar, by the value it boxes.
    Scalar(usize),
    Obj(Box<LeanObject>),
}

/// A Lean constructor object.
#[derive(Debug)]
pub struct LeanObject {
    pub header: LeanObjectHeader,
    pub objs: Vec<LeanRef>,
    pub scalars: Vec<u8>,
}

/// The 8-byte little-endian word at the start of `b`.
pub open spec fn le_u64_spec(b: Seq<u8>) -> u64 {
    (b[0] as u64) | ((b[1] as u64) << 8u64) | ((b[2] as u64) << 16u64) | ((b[3] as u64) << 24u64)
        | ((b[4] as u64) << 32u64) | ((b[5] as u64) << 40u64) | ((b[6] as u64) << 48u64) | ((
    b[7] as u64) << 56u64)
}

/// A non-null Lean reference.
#[derive(Clone, Copy)]
pub struct LeanObj<'a> {
    pub ptr: &'a LeanRef,
}

impl<'a> LeanObj<'a> {
    /// The object this reference points to.
    pub open spec fn object(self) -> LeanObject {
        match *self.ptr {
            LeanRef::Obj(o) => *o,
            _ => arbitrary(),
        }
    }

    /// This reference points to an object with object field `i`.
    pub open spec fn has_field(self, i: int) -> bool {
        &&& *self.ptr is Obj
        &&& 0 <= i < self.object().objs@.len()
    }

    /// Object field `i` of the object.
    pub open spec fn field(self, i: int) -> LeanRef {
        self.object().objs@[i]
    }

    /// This reference points to an object with scalar byte `i`.
    pub open spec fn has_scalar(self, i: int) -> bool {
        &&& *self.ptr is Obj
        &&& 0 <= i < self.object().scalars@.len()
    }

    /// Scalar byte `i` of the object.
    pub open spec fn scalar(self, i: int) -> u8 {
        self.object().scalars@[i]
    }

    /// The tag of the object.
    pub open spec fn tag(self) -> u8 {
        self.object().header.tag
    }

    /// The reference `ptr`, unless it is null.
    pub fn new(ptr: &'a LeanRef) -> (r: Option<Self>)
        ensures
            r is None <==> *ptr is Null,
            r matches Some(o) ==> o.ptr == ptr,
    {
        match ptr {
            LeanRef::Null => None,
            _ => Some(LeanObj { ptr }),
        }
    }

    /// Whether this reference is a boxed scalar.
    pub fn is_scalar(self) -> (r: bool)
        ensures
            r == (*self.ptr is Scalar),
    {
        match self.ptr {
            LeanRef::Scalar(_) => true,
            _ => false,
        }
    }

    /// The number of object fields of the object.
    pub fn ctor_num_objs(self) -> (r: usize)
        requires
            *self.ptr is Obj,
        ensures
            r == self.object().objs@.len(),
    {
        match self.ptr {
            LeanRef::Obj(o) => o.objs.len(),
            _ => 0,
        }
    }

    /// Object field `i` of the object.
    pub fn ctor_obj(self, i: usize) -> (r: &'a LeanRef)
        requires
            self.has_field(i as int),
        ensures
            *r == self.field(i as int),
    {
        match self.ptr {
            LeanRef::Obj(o) => &o.objs[i],
            _ => self.ptr,
        }
    }

    /// Scalar byte `i` of the object.
    pub fn ctor_scalar_get_u8(self, i: usize) -> (r: u8)
        requires
            self.has_scalar(i as int),
        ensures
            r == self.scalar(i as int),
    {
        match self.ptr {
            LeanRef::Obj(o) => o.scalars[i],
            _ => 0,
        }
    }

    /// The tag of the object.
    pub fn ctor_tag(self) -> (r: u8)
        requires
            *self.ptr is Obj,
        ensures
            r == self.tag(),
    {
        match self.ptr {
            LeanRef::Obj(o) => o.header.tag,
            _ => 0,
        }
    }

    /// The 8-byte word at the start of the object's scalar area (where a
    /// level or an expression keeps its data word).
    pub fn ctor_data_u64(self) -> (r: u64)
        requires
            self.has_scalar(7),
        ensures
            r == le_u64_spec(self.object().scalars@),
    {
        match self.ptr {
            LeanRef::Obj(o) => {
                let b = &o.scalars;
                (b[0] as u64) | ((b[1] as u64) << 8u64) | ((b[2] as u64) << 16u64) | ((
                b[3] as u64) << 24u64) | ((b[4] as u64) << 32u64) | ((b[5] as u64) << 40u64) | ((
                b[6] as u64) << 48u64) | ((b[7] as u64) << 56u64)
            },
            _ => 0,
        }
    }
}

/// A reference to an object whose scalar area holds a data word.
pub open spec fn has_data_word(o: LeanRef) -> bool {
    match o {
        LeanRef::Obj(b) => b.scalars@.len() >= 8,
        _ => true,
    }
}

/// The data word of the level or expression `o`, or `None` when `o` is null
/// or a boxed scalar.
pub open spec fn data_for_spec(o: LeanRef) -> Option<u64> {
    match o {
        LeanRef::Obj(b) => Some(le_u64_spec(b.scalars@)),
        _ => None,
    }
}

/// The data word of the level or expression `o`, or `None` when `o` is null
/// or a boxed scalar.
pub fn data_for(o: &LeanRef) -> (r: Option<u64>)
    requires
        has_data_word(*o),
    ensures
        r == data_for_spec(*o),
{
    let obj = match LeanObj::new(o) {
        Some(x) => x,
        None => {
            return None;
        },
    };
    if obj.is_scalar() {
        None
    } else {
        Some(obj.ctor_data_u64())
    }
}

} // verus!
