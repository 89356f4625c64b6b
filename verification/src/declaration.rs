//! Declarations and constants of the environment, read from their Lean
//! objects.
use vstd::prelude::*;
use crate::object::{LeanObj, LeanRef};

verus! {
/// The kind of reducibility hints of a definition.
#[derive(Clone, Copy, PartialEq, Eq, Structural, Debug)]
pub enum ReducibilityHintsKind {
    Opaque,
    Abbreviation,
    Regular,
}
/// The reducibility hints kind that the byte `b` stands for.
pub open spec fn reducibility_hints_kind_of(b: u8) -> ReducibilityHintsKind {
    if b == 0 {
        ReducibilityHintsKind::Opaque
    } else if b == 1 {
        ReducibilityHintsKind::Abbreviation
    } else {
        ReducibilityHintsKind::Regular
    }
}

impl ReducibilityHintsKind {
    /// The reducibility hints kind that the byte `b` stands for (one of the first 3).
    pub fn from_u8(b: u8) -> (r: Self)
        requires
            b < 3,
        ensures
            r == reducibility_hints_kind_of(b),
    {
        if b == 0 {
            ReducibilityHintsKind::Opaque
        } else if b == 1 {
            ReducibilityHintsKind::Abbreviation
        } else {
            ReducibilityHintsKind::Regular
        }
    }
}
/// How safe a definition is.
#[derive(Clone, Copy, PartialEq, Eq, Structural, Debug)]
pub enum DefinitionSafety {
    Unsafe,
    Safe,
    Partial,
}
/// The definition safety that the byte `b` stands for.
pub open spec fn definition_safety_of(b: u8) -> DefinitionSafety {
    if b == 0 {
        DefinitionSafety::Unsafe
    } else if b == 1 {
        DefinitionSafety::Safe
    } else {
        DefinitionSafety::Partial
    }
}

impl DefinitionSafety {
    /// The definition safety that the byte `b` stands for (one of the first 3).
    pub fn from_u8(b: u8) -> (r: Self)
        requires
            b < 3,
        ensures
            r == definition_safety_of(b),
    {
        if b == 0 {
            DefinitionSafety::Unsafe
        } else if b == 1 {
            DefinitionSafety::Safe
        } else {
            DefinitionSafety::Partial
        }
    }
}
/// The kind of a declaration.
#[derive(Clone, Copy, PartialEq, Eq, Structural, Debug)]
pub enum DeclarationKind {
    Axiom,
    Definition,
    Theorem,
    Opaque,
    Quot,
    MutualDefinition,
    Inductive,
}
/// The declaration kind that the byte `b` stands for.
pub open spec fn declaration_kind_of(b: u8) -> DeclarationKind {
    if b == 0 {
        DeclarationKind::Axiom
    } else if b == 1 {
        DeclarationKind::Definition
    } else if b == 2 {
        DeclarationKind::Theorem
    } else if b == 3 {
        DeclarationKind::Opaque
    } else if b == 4 {
        DeclarationKind::Quot
    } else if b == 5 {
        DeclarationKind::MutualDefinition
    } else {
        DeclarationKind::Inductive
    }
}

impl DeclarationKind {
    /// The declaration kind that the byte `b` stands for (one of the first 7).
    pub fn from_u8(b: u8) -> (r: Self)
        requires
            b < 7,
        ensures
            r == declaration_kind_of(b),
    {
        if b == 0 {
            DeclarationKind::Axiom
        } else if b == 1 {
            DeclarationKind::Definition
        } else if b == 2 {
            DeclarationKind::Theorem
        } else if b == 3 {
            DeclarationKind::Opaque
        } else if b == 4 {
            DeclarationKind::Quot
        } else if b == 5 {
            DeclarationKind::MutualDefinition
        } else {
            DeclarationKind::Inductive
        }
    }
}
/// The kind of a constant in the environment.
#[derive(Clone, Copy, PartialEq, Eq, Structural, Debug)]
pub enum ConstantInfoKind {
    Axiom,
    Definition,
    Theorem,
    Opaque,
    Quot,
    Inductive,
    Constructor,
    Recursor,
}
/// The constant info kind that the byte `b` stands for.
pub open spec fn constant_info_kind_of(b: u8) -> ConstantInfoKind {
    if b == 0 {
        ConstantInfoKind::Axiom
    } else if b == 1 {
        ConstantInfoKind::Definition
    } else if b == 2 {
        ConstantInfoKind::Theorem
    } else if b == 3 {
        ConstantInfoKind::Opaque
    } else if b == 4 {
        ConstantInfoKind::Quot
    } else if b == 5 {
        ConstantInfoKind::Inductive
    } else if b == 6 {
        ConstantInfoKind::Constructor
    } else {
        ConstantInfoKind::Recursor
    }
}

impl ConstantInfoKind {
    /// The constant info kind that the byte `b` stands for (one of the first 8).
    pub fn from_u8(b: u8) -> (r: Self)
        requires
            b < 8,
        ensures
            r == constant_info_kind_of(b),
    {
        if b == 0 {
            ConstantInfoKind::Axiom
        } else if b == 1 {
            ConstantInfoKind::Definition
        } else if b == 2 {
            ConstantInfoKind::Theorem
        } else if b == 3 {
            ConstantInfoKind::Opaque
        } else if b == 4 {
            ConstantInfoKind::Quot
        } else if b == 5 {
            ConstantInfoKind::Inductive
        } else if b == 6 {
            ConstantInfoKind::Constructor
        } else {
            ConstantInfoKind::Recursor
        }
    }
}
/// Which of the quotient constants a constant is.
#[derive(Clone, Copy, PartialEq, Eq, Structural, Debug)]
pub enum QuotKind {
    Type,
    Mk,
    Lift,
    Ind,
}
/// The quot kind that the byte `b` stands for.
pub open spec fn quot_kind_of(b: u8) -> QuotKind {
    if b == 0 {
        QuotKind::Type
    } else if b == 1 {
        QuotKind::Mk
    } else if b == 2 {
        QuotKind::Lift
    } else {
        QuotKind::Ind
    }
}

impl QuotKind {
    /// The quot kind that the byte `b` stands for (one of the first 4).
    pub fn from_u8(b: u8) -> (r: Self)
        requires
            b < 4,
        ensures
            r == quot_kind_of(b),
    {
        if b == 0 {
            QuotKind::Type
        } else if b == 1 {
            QuotKind::Mk
        } else if b == 2 {
            QuotKind::Lift
        } else {
            QuotKind::Ind
        }
    }
}


/// The name, universe parameters and type shared by every constant.
pub struct ConstantVal<'a> {
    pub obj: LeanObj<'a>,
}

impl<'a> ConstantVal<'a> {
    /// The name of the constant.
    pub fn name(&self) -> (r: &'a LeanRef)
        requires
            self.obj.has_field(0),
        ensures
            *r == self.obj.field(0),
    {
        self.obj.ctor_obj(0)
    }

    /// The universe parameter names.
    pub fn lparams(&self) -> (r: &'a LeanRef)
        requires
            self.obj.has_field(1),
        ensures
            *r == self.obj.field(1),
    {
        self.obj.ctor_obj(1)
    }

    /// The type.
    pub fn type_(&self) -> (r: &'a LeanRef)
        requires
            self.obj.has_field(2),
        ensures
            *r == self.obj.field(2),
    {
        self.obj.ctor_obj(2)
    }
}

/// An axiom.
pub struct AxiomVal<'a> {
    pub obj: LeanObj<'a>,
}

impl<'a> AxiomVal<'a> {
    /// The name, universe parameters and type of the constant.
    pub fn to_constant_val(&self) -> (r: ConstantVal<'a>)
        requires
            self.obj.has_field(0),
            !(self.obj.field(0) is Null),
        ensures
            *r.obj.ptr == self.obj.field(0),
    {
        ConstantVal { obj: LeanObj { ptr: self.obj.ctor_obj(0) } }
    }

    /// Whether the axiom is unsafe.
    pub fn is_unsafe(&self) -> (r: bool)
        requires
            self.obj.has_scalar(0),
        ensures
            r == (self.obj.scalar(0) != 0),
    {
        self.obj.ctor_scalar_get_u8(0) != 0
    }
}

/// A definition.
pub struct DefinitionVal<'a> {
    pub obj: LeanObj<'a>,
}

impl<'a> DefinitionVal<'a> {
    /// The name, universe parameters and type of the constant.
    pub fn to_constant_val(&self) -> (r: ConstantVal<'a>)
        requires
            self.obj.has_field(0),
            !(self.obj.field(0) is Null),
        ensures
            *r.obj.ptr == self.obj.field(0),
    {
        ConstantVal { obj: LeanObj { ptr: self.obj.ctor_obj(0) } }
    }

    /// The value.
    pub fn value(&self) -> (r: &'a LeanRef)
        requires
            self.obj.has_field(1),
        ensures
            *r == self.obj.field(1),
    {
        self.obj.ctor_obj(1)
    }

    /// The reducibility hints.
    pub fn hints(&self) -> (r: &'a LeanRef)
        requires
            self.obj.has_field(2),
        ensures
            *r == self.obj.field(2),
    {
        self.obj.ctor_obj(2)
    }

    /// How safe the definition is.
    pub fn safety(&self) -> (r: DefinitionSafety)
        requires
            self.obj.has_scalar(0),
            self.obj.scalar(0) < 3,
        ensures
            r == definition_safety_of(self.obj.scalar(0)),
    {
        DefinitionSafety::from_u8(self.obj.ctor_scalar_get_u8(0))
    }
}

/// A theorem.
pub struct TheoremVal<'a> {
    pub obj: LeanObj<'a>,
}

impl<'a> TheoremVal<'a> {
    /// The name, universe parameters and type of the constant.
    pub fn to_constant_val(&self) -> (r: ConstantVal<'a>)
        requires
            self.obj.has_field(0),
            !(self.obj.field(0) is Null),
        ensures
            *r.obj.ptr == self.obj.field(0),
    {
        ConstantVal { obj: LeanObj { ptr: self.obj.ctor_obj(0) } }
    }

    /// The proof.
    pub fn value(&self) -> (r: &'a LeanRef)
        requires
            self.obj.has_field(1),
        ensures
            *r == self.obj.field(1),
    {
        self.obj.ctor_obj(1)
    }
}

/// An opaque constant.
pub struct OpaqueVal<'a> {
    pub obj: LeanObj<'a>,
}

impl<'a> OpaqueVal<'a> {
    /// The name, universe parameters and type of the constant.
    pub fn to_constant_val(&self) -> (r: ConstantVal<'a>)
        requires
            self.obj.has_field(0),
            !(self.obj.field(0) is Null),
        ensures
            *r.obj.ptr == self.obj.field(0),
    {
        ConstantVal { obj: LeanObj { ptr: self.obj.ctor_obj(0) } }
    }

    /// The value.
    pub fn value(&self) -> (r: &'a LeanRef)
        requires
            self.obj.has_field(1),
        ensures
            *r == self.obj.field(1),
    {
        self.obj.ctor_obj(1)
    }

    /// Whether the constant is unsafe.
    pub fn is_unsafe(&self) -> (r: bool)
        requires
            self.obj.has_scalar(0),
        ensures
            r == (self.obj.scalar(0) != 0),
    {
        self.obj.ctor_scalar_get_u8(0) != 0
    }
}

/// One of the quotient constants.
pub struct QuotVal<'a> {
    pub obj: LeanObj<'a>,
}

impl<'a> QuotVal<'a> {
    /// The name, universe parameters and type of the constant.
    pub fn to_constant_val(&self) -> (r: ConstantVal<'a>)
        requires
            self.obj.has_field(0),
            !(self.obj.field(0) is Null),
        ensures
            *r.obj.ptr == self.obj.field(0),
    {
        ConstantVal { obj: LeanObj { ptr: self.obj.ctor_obj(0) } }
    }

    /// Which quotient constant it is.
    pub fn kind(&self) -> (r: QuotKind)
        requires
            self.obj.has_scalar(0),
            self.obj.scalar(0) < 4,
        ensures
            r == quot_kind_of(self.obj.scalar(0)),
    {
        QuotKind::from_u8(self.obj.ctor_scalar_get_u8(0))
    }
}

/// An inductive type.
pub struct InductiveVal<'a> {
    pub obj: LeanObj<'a>,
}

impl<'a> InductiveVal<'a> {
    /// The name, universe parameters and type of the constant.
    pub fn to_constant_val(&self) -> (r: ConstantVal<'a>)
        requires
            self.obj.has_field(0),
            !(self.obj.field(0) is Null),
        ensures
            *r.obj.ptr == self.obj.field(0),
    {
        ConstantVal { obj: LeanObj { ptr: self.obj.ctor_obj(0) } }
    }

    /// The number of parameters.
    pub fn num_params(&self) -> (r: usize)
        requires
            self.obj.has_field(1),
            self.obj.field(1) is Scalar,
        ensures
            r == self.obj.field(1)->Scalar_0,
    {
        match self.obj.ctor_obj(1) {
            LeanRef::Scalar(n) => *n,
            _ => 0,
        }
    }

    /// The number of indices.
    pub fn num_indices(&self) -> (r: usize)
        requires
            self.obj.has_field(2),
            self.obj.field(2) is Scalar,
        ensures
            r == self.obj.field(2)->Scalar_0,
    {
        match self.obj.ctor_obj(2) {
            LeanRef::Scalar(n) => *n,
            _ => 0,
        }
    }

    /// The names of the types of its mutual block.
    pub fn all(&self) -> (r: &'a LeanRef)
        requires
            self.obj.has_field(3),
        ensures
            *r == self.obj.field(3),
    {
        self.obj.ctor_obj(3)
    }

    /// The names of its constructors.
    pub fn ctors(&self) -> (r: &'a LeanRef)
        requires
            self.obj.has_field(4),
        ensures
            *r == self.obj.field(4),
    {
        self.obj.ctor_obj(4)
    }

    /// The number of nested types.
    pub fn num_nested(&self) -> (r: usize)
        requires
            self.obj.has_field(5),
            self.obj.field(5) is Scalar,
        ensures
            r == self.obj.field(5)->Scalar_0,
    {
        match self.obj.ctor_obj(5) {
            LeanRef::Scalar(n) => *n,
            _ => 0,
        }
    }

    /// Whether the type is recursive.
    pub fn is_rec(&self) -> (r: bool)
        requires
            self.obj.has_scalar(0),
        ensures
            r == (self.obj.scalar(0) != 0),
    {
        self.obj.ctor_scalar_get_u8(0) != 0
    }

    /// Whether the type is unsafe.
    pub fn is_unsafe(&self) -> (r: bool)
        requires
            self.obj.has_scalar(1),
        ensures
            r == (self.obj.scalar(1) != 0),
    {
        self.obj.ctor_scalar_get_u8(1) != 0
    }

    /// Whether the type is reflexive.
    pub fn is_reflexive(&self) -> (r: bool)
        requires
            self.obj.has_scalar(2),
        ensures
            r == (self.obj.scalar(2) != 0),
    {
        self.obj.ctor_scalar_get_u8(2) != 0
    }
}

/// A constructor.
pub struct ConstructorVal<'a> {
    pub obj: LeanObj<'a>,
}

impl<'a> ConstructorVal<'a> {
    /// The name, universe parameters and type of the constant.
    pub fn to_constant_val(&self) -> (r: ConstantVal<'a>)
        requires
            self.obj.has_field(0),
            !(self.obj.field(0) is Null),
        ensures
            *r.obj.ptr == self.obj.field(0),
    {
        ConstantVal { obj: LeanObj { ptr: self.obj.ctor_obj(0) } }
    }

    /// The name of its inductive type.
    pub fn induct(&self) -> (r: &'a LeanRef)
        requires
            self.obj.has_field(1),
        ensures
            *r == self.obj.field(1),
    {
        self.obj.ctor_obj(1)
    }

    /// Its index among the constructors.
    pub fn cidx(&self) -> (r: usize)
        requires
            self.obj.has_field(2),
            self.obj.field(2) is Scalar,
        ensures
            r == self.obj.field(2)->Scalar_0,
    {
        match self.obj.ctor_obj(2) {
            LeanRef::Scalar(n) => *n,
            _ => 0,
        }
    }

    /// The number of parameters.
    pub fn num_params(&self) -> (r: usize)
        requires
            self.obj.has_field(3),
            self.obj.field(3) is Scalar,
        ensures
            r == self.obj.field(3)->Scalar_0,
    {
        match self.obj.ctor_obj(3) {
            LeanRef::Scalar(n) => *n,
            _ => 0,
        }
    }

    /// The number of fields.
    pub fn num_fields(&self) -> (r: usize)
        requires
            self.obj.has_field(4),
            self.obj.field(4) is Scalar,
        ensures
            r == self.obj.field(4)->Scalar_0,
    {
        match self.obj.ctor_obj(4) {
            LeanRef::Scalar(n) => *n,
            _ => 0,
        }
    }

    /// Whether the constructor is unsafe.
    pub fn is_unsafe(&self) -> (r: bool)
        requires
            self.obj.has_scalar(0),
        ensures
            r == (self.obj.scalar(0) != 0),
    {
        self.obj.ctor_scalar_get_u8(0) != 0
    }
}

/// A recursor.
pub struct RecursorVal<'a> {
    pub obj: LeanObj<'a>,
}

impl<'a> RecursorVal<'a> {
    /// The name, universe parameters and type of the constant.
    pub fn to_constant_val(&self) -> (r: ConstantVal<'a>)
        requires
            self.obj.has_field(0),
            !(self.obj.field(0) is Null),
        ensures
            *r.obj.ptr == self.obj.field(0),
    {
        ConstantVal { obj: LeanObj { ptr: self.obj.ctor_obj(0) } }
    }

    /// The names of the types of its mutual block.
    pub fn all(&self) -> (r: &'a LeanRef)
        requires
            self.obj.has_field(1),
        ensures
            *r == self.obj.field(1),
    {
        self.obj.ctor_obj(1)
    }

    /// The number of parameters.
    pub fn num_params(&self) -> (r: usize)
        requires
            self.obj.has_field(2),
            self.obj.field(2) is Scalar,
        ensures
            r == self.obj.field(2)->Scalar_0,
    {
        match self.obj.ctor_obj(2) {
            LeanRef::Scalar(n) => *n,
            _ => 0,
        }
    }

    /// The number of indices.
    pub fn num_indices(&self) -> (r: usize)
        requires
            self.obj.has_field(3),
            self.obj.field(3) is Scalar,
        ensures
            r == self.obj.field(3)->Scalar_0,
    {
        match self.obj.ctor_obj(3) {
            LeanRef::Scalar(n) => *n,
            _ => 0,
        }
    }

    /// The number of motives.
    pub fn num_motives(&self) -> (r: usize)
        requires
            self.obj.has_field(4),
            self.obj.field(4) is Scalar,
        ensures
            r == self.obj.field(4)->Scalar_0,
    {
        match self.obj.ctor_obj(4) {
            LeanRef::Scalar(n) => *n,
            _ => 0,
        }
    }

    /// The number of minor premises.
    pub fn num_minors(&self) -> (r: usize)
        requires
            self.obj.has_field(5),
            self.obj.field(5) is Scalar,
        ensures
            r == self.obj.field(5)->Scalar_0,
    {
        match self.obj.ctor_obj(5) {
            LeanRef::Scalar(n) => *n,
            _ => 0,
        }
    }

    /// Its reduction rules.
    pub fn rules(&self) -> (r: &'a LeanRef)
        requires
            self.obj.has_field(6),
        ensures
            *r == self.obj.field(6),
    {
        self.obj.ctor_obj(6)
    }

    /// Whether it supports K-like reduction.
    pub fn k(&self) -> (r: bool)
        requires
            self.obj.has_scalar(0),
        ensures
            r == (self.obj.scalar(0) != 0),
    {
        self.obj.ctor_scalar_get_u8(0) != 0
    }

    /// Whether the recursor is unsafe.
    pub fn is_unsafe(&self) -> (r: bool)
        requires
            self.obj.has_scalar(1),
        ensures
            r == (self.obj.scalar(1) != 0),
    {
        self.obj.ctor_scalar_get_u8(1) != 0
    }
}


/// A declaration to be added to the environment.
pub struct Declaration<'a> {
    pub obj: LeanObj<'a>,
}

impl<'a> Declaration<'a> {
    /// The kind of the declaration, read from the tag of its object.
    pub fn kind(&self) -> (r: DeclarationKind)
        requires
            *self.obj.ptr is Obj,
            self.obj.tag() < 7,
        ensures
            r == declaration_kind_of(self.obj.tag()),
    {
        DeclarationKind::from_u8(self.obj.ctor_tag())
    }

    /// The axiom this declaration holds.
    pub fn to_axiom_val(&self) -> (r: AxiomVal<'a>)
        requires
            self.obj.has_field(0),
            !(self.obj.field(0) is Null),
        ensures
            *r.obj.ptr == self.obj.field(0),
    {
        AxiomVal { obj: LeanObj { ptr: self.obj.ctor_obj(0) } }
    }

    /// The definition this declaration holds.
    pub fn to_definition_val(&self) -> (r: DefinitionVal<'a>)
        requires
            self.obj.has_field(0),
            !(self.obj.field(0) is Null),
        ensures
            *r.obj.ptr == self.obj.field(0),
    {
        DefinitionVal { obj: LeanObj { ptr: self.obj.ctor_obj(0) } }
    }

    /// The theorem this declaration holds.
    pub fn to_theorem_val(&self) -> (r: TheoremVal<'a>)
        requires
            self.obj.has_field(0),
            !(self.obj.field(0) is Null),
        ensures
            *r.obj.ptr == self.obj.field(0),
    {
        TheoremVal { obj: LeanObj { ptr: self.obj.ctor_obj(0) } }
    }

    /// The opaque constant this declaration holds.
    pub fn to_opaque_val(&self) -> (r: OpaqueVal<'a>)
        requires
            self.obj.has_field(0),
            !(self.obj.field(0) is Null),
        ensures
            *r.obj.ptr == self.obj.field(0),
    {
        OpaqueVal { obj: LeanObj { ptr: self.obj.ctor_obj(0) } }
    }

    /// The list of definitions of a mutual declaration.
    pub fn to_definition_vals(&self) -> (r: &'a LeanRef)
        requires
            self.obj.has_field(0),
        ensures
            *r == self.obj.field(0),
    {
        self.obj.ctor_obj(0)
    }
}

/// A constant of the environment.
pub struct ConstantInfo<'a> {
    pub obj: LeanObj<'a>,
}

/// The object that `r` points to.
pub open spec fn object_of(r: LeanRef) -> crate::object::LeanObject {
    match r {
        LeanRef::Obj(o) => *o,
        _ => arbitrary(),
    }
}

impl<'a> ConstantInfo<'a> {
    /// The object holding the constant's value: an object whose scalar area
    /// holds the flags its kind has.
    pub open spec fn well_shaped(&self) -> bool {
        &&& *self.obj.ptr is Obj
        &&& self.obj.tag() < 8
        &&& self.obj.has_field(0)
        &&& self.obj.field(0) is Obj
        &&& {
            let s = object_of(self.obj.field(0)).scalars@;
            match constant_info_kind_of(self.obj.tag()) {
                ConstantInfoKind::Axiom => s.len() >= 1,
                ConstantInfoKind::Definition => s.len() >= 1 && s[0] < 3,
                ConstantInfoKind::Opaque => s.len() >= 1,
                ConstantInfoKind::Inductive => s.len() >= 2,
                ConstantInfoKind::Constructor => s.len() >= 1,
                ConstantInfoKind::Recursor => s.len() >= 2,
                _ => true,
            }
        }
    }

    /// Whether the constant is unsafe: its unsafe flag, for a definition its
    /// safety being `Unsafe`; theorems and quotient constants never are.
    pub open spec fn is_unsafe_spec(&self) -> bool {
        let s = object_of(self.obj.field(0)).scalars@;
        match constant_info_kind_of(self.obj.tag()) {
            ConstantInfoKind::Axiom => s[0] != 0,
            ConstantInfoKind::Definition => s[0] == 0,
            ConstantInfoKind::Theorem => false,
            ConstantInfoKind::Opaque => s[0] != 0,
            ConstantInfoKind::Quot => false,
            ConstantInfoKind::Inductive => s[1] != 0,
            ConstantInfoKind::Constructor => s[0] != 0,
            ConstantInfoKind::Recursor => s[1] != 0,
        }
    }

    /// The kind of the constant, read from the tag of its object.
    pub fn kind(&self) -> (r: ConstantInfoKind)
        requires
            *self.obj.ptr is Obj,
            self.obj.tag() < 8,
        ensures
            r == constant_info_kind_of(self.obj.tag()),
    {
        ConstantInfoKind::from_u8(self.obj.ctor_tag())
    }

    /// The object holding the constant's value.
    pub fn to_val(&self) -> (r: LeanObj<'a>)
        requires
            self.obj.has_field(0),
            !(self.obj.field(0) is Null),
        ensures
            *r.ptr == self.obj.field(0),
    {
        LeanObj { ptr: self.obj.ctor_obj(0) }
    }

    /// The constant as an axiom.
    pub fn to_axiom_val(&self) -> (r: AxiomVal<'a>)
        requires
            self.obj.has_field(0),
            !(self.obj.field(0) is Null),
        ensures
            *r.obj.ptr == self.obj.field(0),
    {
        AxiomVal { obj: self.to_val() }
    }

    /// The constant as a definition.
    pub fn to_definition_val(&self) -> (r: DefinitionVal<'a>)
        requires
            self.obj.has_field(0),
            !(self.obj.field(0) is Null),
        ensures
            *r.obj.ptr == self.obj.field(0),
    {
        DefinitionVal { obj: self.to_val() }
    }

    /// The constant as a theorem.
    pub fn to_theorem_val(&self) -> (r: TheoremVal<'a>)
        requires
            self.obj.has_field(0),
            !(self.obj.field(0) is Null),
        ensures
            *r.obj.ptr == self.obj.field(0),
    {
        TheoremVal { obj: self.to_val() }
    }

    /// The constant as an opaque constant.
    pub fn to_opaque_val(&self) -> (r: OpaqueVal<'a>)
        requires
            self.obj.has_field(0),
            !(self.obj.field(0) is Null),
        ensures
            *r.obj.ptr == self.obj.field(0),
    {
        OpaqueVal { obj: self.to_val() }
    }

    /// The constant as an inductive type.
    pub fn to_inductive_val(&self) -> (r: InductiveVal<'a>)
        requires
            self.obj.has_field(0),
            !(self.obj.field(0) is Null),
        ensures
            *r.obj.ptr == self.obj.field(0),
    {
        InductiveVal { obj: self.to_val() }
    }

    /// The constant as a constructor.
    pub fn to_constructor_val(&self) -> (r: ConstructorVal<'a>)
        requires
            self.obj.has_field(0),
            !(self.obj.field(0) is Null),
        ensures
            *r.obj.ptr == self.obj.field(0),
    {
        ConstructorVal { obj: self.to_val() }
    }

    /// The constant as a recursor.
    pub fn to_recursor_val(&self) -> (r: RecursorVal<'a>)
        requires
            self.obj.has_field(0),
            !(self.obj.field(0) is Null),
        ensures
            *r.obj.ptr == self.obj.field(0),
    {
        RecursorVal { obj: self.to_val() }
    }

    /// The constant as a quotient constant.
    pub fn to_quot_val(&self) -> (r: QuotVal<'a>)
        requires
            self.obj.has_field(0),
            !(self.obj.field(0) is Null),
        ensures
            *r.obj.ptr == self.obj.field(0),
    {
        QuotVal { obj: self.to_val() }
    }

    /// Whether the constant is unsafe.
    pub fn is_unsafe(&self) -> (r: bool)
        requires
            self.well_shaped(),
        ensures
            r == self.is_unsafe_spec(),
    {
        match self.kind() {
            ConstantInfoKind::Axiom => self.to_axiom_val().is_unsafe(),
            ConstantInfoKind::Definition => match self.to_definition_val().safety() {
                DefinitionSafety::Unsafe => true,
                _ => false,
            },
            ConstantInfoKind::Theorem => false,
            ConstantInfoKind::Opaque => self.to_opaque_val().is_unsafe(),
            ConstantInfoKind::Quot => false,
            ConstantInfoKind::Inductive => self.to_inductive_val().is_unsafe(),
            ConstantInfoKind::Constructor => self.to_constructor_val().is_unsafe(),
            ConstantInfoKind::Recursor => self.to_recursor_val().is_unsafe(),
        }
    }
}

} // verus!
