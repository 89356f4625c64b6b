//! Lean universe levels and expressions, held as plain Rust values.
//!
//! A name, a metadata map and the text of a string literal are Lean objects
//! that this library only ever compares; each is held by the integer that
//! identifies it.
use vstd::prelude::*;

verus! {

/// A hierarchical Lean name, held by its identifier.
#[derive(Clone, Copy, PartialEq, Eq, Structural, Debug)]
pub struct Name {
    pub id: u64,
}

/// The key/value metadata map of an `mdata` node, held by its identifier.
#[derive(Clone, Copy, PartialEq, Eq, Structural, Debug)]
pub struct KVMap {
    pub id: u64,
}

/// A literal: a natural number or a string (held by its identifier).
#[derive(Clone, Copy, PartialEq, Eq, Structural, Debug)]
pub enum Literal {
    NatVal(u64),
    StrVal(u64),
}

/// The binder annotation of a lambda or a forall.
#[derive(Clone, Copy, PartialEq, Eq, Structural, Debug)]
pub enum BinderInfo {
    Default,
    Implicit,
    StrictImplicit,
    InstImplicit,
    Rec,
}

/// The binder annotation that the byte `b` stands for.
pub open spec fn binder_info_of(b: u8) -> BinderInfo {
    if b == 0 {
        BinderInfo::Default
    } else if b == 1 {
        BinderInfo::Implicit
    } else if b == 2 {
        BinderInfo::StrictImplicit
    } else if b == 3 {
        BinderInfo::InstImplicit
    } else {
        BinderInfo::Rec
    }
}

impl BinderInfo {
    /// The binder annotation that the byte `b` stands for (one of the first
    /// five).
    pub fn from_u8(b: u8) -> (r: Self)
        requires
            b < 5,
        ensures
            r == binder_info_of(b),
    {
        if b == 0 {
            BinderInfo::Default
        } else if b == 1 {
            BinderInfo::Implicit
        } else if b == 2 {
            BinderInfo::StrictImplicit
        } else if b == 3 {
            BinderInfo::InstImplicit
        } else {
            BinderInfo::Rec
        }
    }
}

/// A universe level.
#[derive(Debug, PartialEq, Eq)]
pub enum Level {
    Zero,
    Succ(Box<Level>),
    Max(Box<Level>, Box<Level>),
    IMax(Box<Level>, Box<Level>),
    Param(Name),
    MVar(Name),
}

/// A list of universe levels, as Lean's `List Level`.
#[derive(Debug, PartialEq, Eq)]
pub enum LevelList {
    Nil,
    Cons(Box<Level>, Box<LevelList>),
}

/// A Lean expression.
#[derive(Debug, PartialEq, Eq)]
pub enum Expr {
    BVar(u64),
    FVar(Name),
    MVar(Name),
    /// `Sort u @ h`: the universe level `u` and the hierarchy level `h`.
    Sort(Level, Level),
    Const(Name, LevelList),
    App(Box<Expr>, Box<Expr>),
    Lam(Name, Box<Expr>, Box<Expr>, BinderInfo),
    ForallE(Name, Box<Expr>, Box<Expr>, BinderInfo),
    LetE(Name, Box<Expr>, Box<Expr>, Box<Expr>, bool),
    Lit(Literal),
    MData(KVMap, Box<Expr>),
    Proj(Name, u64, Box<Expr>),
}

/// The largest loose bound variable range that an expression may have: Lean
/// refuses to build a node whose range exceeds it.
pub const MAX_BVAR_RANGE: u64 = 1048575;

/// Every bound variable index is below `MAX_BVAR_RANGE`, as Lean guarantees
/// for every expression it builds.
pub open spec fn wf_expr(e: Expr) -> bool
    decreases e,
{
    match e {
        Expr::BVar(i) => i < MAX_BVAR_RANGE,
        Expr::App(f, a) => wf_expr(*f) && wf_expr(*a),
        Expr::Lam(_, t, b, _) => wf_expr(*t) && wf_expr(*b),
        Expr::ForallE(_, t, b, _) => wf_expr(*t) && wf_expr(*b),
        Expr::LetE(_, t, v, b, _) => wf_expr(*t) && wf_expr(*v) && wf_expr(*b),
        Expr::MData(_, b) => wf_expr(*b),
        Expr::Proj(_, _, b) => wf_expr(*b),
        _ => true,
    }
}

/// A copy of a level.
pub fn clone_level(l: &Level) -> (r: Level)
    ensures
        r == *l,
    decreases l,
{
    match l {
        Level::Zero => Level::Zero,
        Level::Succ(a) => Level::Succ(Box::new(clone_level(a))),
        Level::Max(a, b) => Level::Max(Box::new(clone_level(a)), Box::new(clone_level(b))),
        Level::IMax(a, b) => Level::IMax(Box::new(clone_level(a)), Box::new(clone_level(b))),
        Level::Param(n) => Level::Param(*n),
        Level::MVar(n) => Level::MVar(*n),
    }
}

/// A copy of a list of levels.
pub fn clone_levels(ls: &LevelList) -> (r: LevelList)
    ensures
        r == *ls,
    decreases ls,
{
    match ls {
        LevelList::Nil => LevelList::Nil,
        LevelList::Cons(h, t) => LevelList::Cons(
            Box::new(clone_level(h)),
            Box::new(clone_levels(t)),
        ),
    }
}

/// A copy of an expression.
pub fn clone_expr(e: &Expr) -> (r: Expr)
    ensures
        r == *e,
    decreases e,
{
    match e {
        Expr::BVar(i) => Expr::BVar(*i),
        Expr::FVar(n) => Expr::FVar(*n),
        Expr::MVar(n) => Expr::MVar(*n),
        Expr::Sort(l, h) => Expr::Sort(clone_level(l), clone_level(h)),
        Expr::Const(n, ls) => Expr::Const(*n, clone_levels(ls)),
        Expr::App(f, a) => Expr::App(Box::new(clone_expr(f)), Box::new(clone_expr(a))),
        Expr::Lam(n, t, b, bi) => Expr::Lam(
            *n,
            Box::new(clone_expr(t)),
            Box::new(clone_expr(b)),
            *bi,
        ),
        Expr::ForallE(n, t, b, bi) => Expr::ForallE(
            *n,
            Box::new(clone_expr(t)),
            Box::new(clone_expr(b)),
            *bi,
        ),
        Expr::LetE(n, t, v, b, nd) => Expr::LetE(
            *n,
            Box::new(clone_expr(t)),
            Box::new(clone_expr(v)),
            Box::new(clone_expr(b)),
            *nd,
        ),
        Expr::Lit(l) => Expr::Lit(*l),
        Expr::MData(m, b) => Expr::MData(*m, Box::new(clone_expr(b))),
        Expr::Proj(n, i, b) => Expr::Proj(*n, *i, Box::new(clone_expr(b))),
    }
}

} // verus!
