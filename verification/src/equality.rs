//! Structural equality of levels, literals and expressions.
use vstd::prelude::*;
use crate::expr::{BinderInfo, Expr, Level, LevelList, Literal, Name};

verus! {

/// Whether two levels are the same.
pub fn level_eq(a: &Level, b: &Level) -> (r: bool)
    ensures
        r == (*a == *b),
    decreases a,
{
    match (a, b) {
        (Level::Zero, Level::Zero) => true,
        (Level::Succ(x), Level::Succ(y)) => level_eq(x, y),
        (Level::Max(x1, x2), Level::Max(y1, y2)) => level_eq(x1, y1) && level_eq(x2, y2),
        (Level::IMax(x1, x2), Level::IMax(y1, y2)) => level_eq(x1, y1) && level_eq(x2, y2),
        (Level::Param(x), Level::Param(y)) => *x == *y,
        (Level::MVar(x), Level::MVar(y)) => *x == *y,
        _ => false,
    }
}

/// Whether two lists of levels are the same, element by element.
pub fn levels_eq(ls1: &LevelList, ls2: &LevelList) -> (r: bool)
    ensures
        r == (*ls1 == *ls2),
    decreases ls1,
{
    match (ls1, ls2) {
        (LevelList::Nil, LevelList::Nil) => true,
        (LevelList::Cons(h1, t1), LevelList::Cons(h2, t2)) => level_eq(h1, h2) && levels_eq(t1, t2),
        _ => false,
    }
}

/// Whether two literals are the same: both numbers, or both strings, with
/// the same value.
pub fn literal_eq(a: &Literal, b: &Literal) -> (r: bool)
    ensures
        r == (*a == *b),
{
    match (a, b) {
        (Literal::NatVal(x), Literal::NatVal(y)) => *x == *y,
        (Literal::StrVal(x), Literal::StrVal(y)) => *x == *y,
        _ => false,
    }
}

/// Whether `a` and `b` are the same expression, up to the names of binders
/// and the annotations of lambdas and foralls unless `cmp_binders`.
pub open spec fn expr_eq_spec(a: Expr, b: Expr, cmp_binders: bool) -> bool
    decreases a,
{
    match (a, b) {
        (Expr::BVar(i), Expr::BVar(j)) => i == j,
        (Expr::Lit(x), Expr::Lit(y)) => x == y,
        (Expr::MVar(x), Expr::MVar(y)) => x == y,
        (Expr::FVar(x), Expr::FVar(y)) => x == y,
        (Expr::Sort(x, hx), Expr::Sort(y, hy)) => x == y && hx == hy,
        (Expr::MData(m1, e1), Expr::MData(m2, e2)) => expr_eq_spec(*e1, *e2, cmp_binders) && m1
            == m2,
        (Expr::Proj(n1, i1, e1), Expr::Proj(n2, i2, e2)) => expr_eq_spec(*e1, *e2, cmp_binders)
            && n1 == n2 && i1 == i2,
        (Expr::Const(n1, ls1), Expr::Const(n2, ls2)) => n1 == n2 && ls1 == ls2,
        (Expr::App(f1, a1), Expr::App(f2, a2)) => expr_eq_spec(*a1, *a2, cmp_binders)
            && expr_eq_spec(*f1, *f2, cmp_binders),
        (Expr::Lam(n1, t1, b1, i1), Expr::Lam(n2, t2, b2, i2)) => expr_eq_spec(
            *t1,
            *t2,
            cmp_binders,
        ) && expr_eq_spec(*b1, *b2, cmp_binders) && (cmp_binders ==> n1 == n2 && i1 == i2),
        (Expr::ForallE(n1, t1, b1, i1), Expr::ForallE(n2, t2, b2, i2)) => expr_eq_spec(
            *t1,
            *t2,
            cmp_binders,
        ) && expr_eq_spec(*b1, *b2, cmp_binders) && (cmp_binders ==> n1 == n2 && i1 == i2),
        (Expr::LetE(n1, t1, v1, b1, d1), Expr::LetE(n2, t2, v2, b2, d2)) => expr_eq_spec(
            *t1,
            *t2,
            cmp_binders,
        ) && expr_eq_spec(*v1, *v2, cmp_binders) && expr_eq_spec(*b1, *b2, cmp_binders) && d1
            == d2 && (cmp_binders ==> n1 == n2),
        _ => false,
    }
}

/// An expression comparison, with or without binder names and annotations.
pub struct ExprEq {
    pub compare_binder_info: bool,
}

impl ExprEq {
    /// The comparison that also compares binder names and annotations when
    /// `compare_binder_info`.
    pub fn new(compare_binder_info: bool) -> (r: Self)
        ensures
            r.compare_binder_info == compare_binder_info,
    {
        ExprEq { compare_binder_info }
    }

    /// Whether `a` and `b` are equal under this comparison.
    pub fn apply(&self, a: &Expr, b: &Expr) -> (r: bool)
        ensures
            r == expr_eq_spec(*a, *b, self.compare_binder_info),
        decreases a,
    {
        match (a, b) {
            (Expr::BVar(i), Expr::BVar(j)) => *i == *j,
            (Expr::Lit(x), Expr::Lit(y)) => literal_eq(x, y),
            (Expr::MVar(x), Expr::MVar(y)) => *x == *y,
            (Expr::FVar(x), Expr::FVar(y)) => *x == *y,
            (Expr::Sort(x, hx), Expr::Sort(y, hy)) => level_eq(x, y) && level_eq(hx, hy),
            (Expr::MData(m1, e1), Expr::MData(m2, e2)) => {
                if !self.apply(e1, e2) {
                    return false;
                }
                *m1 == *m2
            },
            (Expr::Proj(n1, i1, e1), Expr::Proj(n2, i2, e2)) => {
                if !self.apply(e1, e2) {
                    return false;
                }
                if *n1 != *n2 {
                    return false;
                }
                *i1 == *i2
            },
            (Expr::Const(n1, ls1), Expr::Const(n2, ls2)) => {
                if *n1 != *n2 {
                    return false;
                }
                levels_eq(ls1, ls2)
            },
            (Expr::App(f1, a1), Expr::App(f2, a2)) => {
                if !self.apply(a1, a2) {
                    return false;
                }
                self.apply(f1, f2)
            },
            (Expr::Lam(n1, t1, b1, i1), Expr::Lam(n2, t2, b2, i2)) | (
                Expr::ForallE(n1, t1, b1, i1),
                Expr::ForallE(n2, t2, b2, i2),
            ) => {
                if !self.apply(t1, t2) {
                    return false;
                }
                if !self.apply(b1, b2) {
                    return false;
                }
                if self.compare_binder_info {
                    if *n1 != *n2 {
                        return false;
                    }
                    if *i1 != *i2 {
                        return false;
                    }
                }
                true
            },
            (Expr::LetE(n1, t1, v1, b1, d1), Expr::LetE(n2, t2, v2, b2, d2)) => {
                if !self.apply(t1, t2) {
                    return false;
                }
                if !self.apply(v1, v2) {
                    return false;
                }
                if !self.apply(b1, b2) {
                    return false;
                }
                if *d1 != *d2 {
                    return false;
                }
                if self.compare_binder_info {
                    if *n1 != *n2 {
                        return false;
                    }
                }
                true
            },
            _ => false,
        }
    }
}

/// Whether `a` and `b` are equal up to binder names and annotations: 1 if
/// so, else 0.
pub fn lean_expr_eqv_rs(a: &Expr, b: &Expr) -> (r: u8)
    ensures
        r == (if expr_eq_spec(*a, *b, false) {
            1u8
        } else {
            0u8
        }),
        r == 1 <==> erase_binders(*a) == erase_binders(*b),
{
    proof {
        lemma_eqv_is_equality_up_to_binders(*a, *b);
    }
    let eq = ExprEq::new(false);
    if eq.apply(a, b) {
        1
    } else {
        0
    }
}

/// Whether `a` and `b` are equal, binder names and annotations included: 1
/// if so, else 0.
pub fn lean_expr_equal_rs(a: &Expr, b: &Expr) -> (r: u8)
    ensures
        r == (if expr_eq_spec(*a, *b, true) {
            1u8
        } else {
            0u8
        }),
        r == 1 <==> *a == *b,
{
    proof {
        lemma_equal_is_identity(*a, *b);
    }
    let eq = ExprEq::new(true);
    if eq.apply(a, b) {
        1
    } else {
        0
    }
}

/// Comparing with binder names and annotations is exactly equality.
pub proof fn lemma_equal_is_identity(a: Expr, b: Expr)
    ensures
        expr_eq_spec(a, b, true) <==> a == b,
    decreases a,
{
    match (a, b) {
        (Expr::MData(_, e1), Expr::MData(_, e2)) => {
            lemma_equal_is_identity(*e1, *e2);
        },
        (Expr::Proj(_, _, e1), Expr::Proj(_, _, e2)) => {
            lemma_equal_is_identity(*e1, *e2);
        },
        (Expr::App(f1, a1), Expr::App(f2, a2)) => {
            lemma_equal_is_identity(*f1, *f2);
            lemma_equal_is_identity(*a1, *a2);
        },
        (Expr::Lam(_, t1, b1, _), Expr::Lam(_, t2, b2, _)) => {
            lemma_equal_is_identity(*t1, *t2);
            lemma_equal_is_identity(*b1, *b2);
        },
        (Expr::ForallE(_, t1, b1, _), Expr::ForallE(_, t2, b2, _)) => {
            lemma_equal_is_identity(*t1, *t2);
            lemma_equal_is_identity(*b1, *b2);
        },
        (Expr::LetE(_, t1, v1, b1, _), Expr::LetE(_, t2, v2, b2, _)) => {
            lemma_equal_is_identity(*t1, *t2);
            lemma_equal_is_identity(*v1, *v2);
            lemma_equal_is_identity(*b1, *b2);
        },
        _ => {},
    }
}

/// Every expression is equal to itself, under either comparison.
pub proof fn lemma_eq_reflexive(a: Expr, cmp_binders: bool)
    ensures
        expr_eq_spec(a, a, cmp_binders),
    decreases a,
{
    match a {
        Expr::MData(_, e) => lemma_eq_reflexive(*e, cmp_binders),
        Expr::Proj(_, _, e) => lemma_eq_reflexive(*e, cmp_binders),
        Expr::App(f, x) => {
            lemma_eq_reflexive(*f, cmp_binders);
            lemma_eq_reflexive(*x, cmp_binders);
        },
        Expr::Lam(_, t, b, _) => {
            lemma_eq_reflexive(*t, cmp_binders);
            lemma_eq_reflexive(*b, cmp_binders);
        },
        Expr::ForallE(_, t, b, _) => {
            lemma_eq_reflexive(*t, cmp_binders);
            lemma_eq_reflexive(*b, cmp_binders);
        },
        Expr::LetE(_, t, v, b, _) => {
            lemma_eq_reflexive(*t, cmp_binders);
            lemma_eq_reflexive(*v, cmp_binders);
            lemma_eq_reflexive(*b, cmp_binders);
        },
        _ => {},
    }
}

/// The comparison is symmetric.
pub proof fn lemma_eq_symmetric(a: Expr, b: Expr, cmp_binders: bool)
    ensures
        expr_eq_spec(a, b, cmp_binders) == expr_eq_spec(b, a, cmp_binders),
    decreases a,
{
    match (a, b) {
        (Expr::MData(_, e1), Expr::MData(_, e2)) => lemma_eq_symmetric(*e1, *e2, cmp_binders),
        (Expr::Proj(_, _, e1), Expr::Proj(_, _, e2)) => lemma_eq_symmetric(*e1, *e2, cmp_binders),
        (Expr::App(f1, a1), Expr::App(f2, a2)) => {
            lemma_eq_symmetric(*f1, *f2, cmp_binders);
            lemma_eq_symmetric(*a1, *a2, cmp_binders);
        },
        (Expr::Lam(_, t1, b1, _), Expr::Lam(_, t2, b2, _)) => {
            lemma_eq_symmetric(*t1, *t2, cmp_binders);
            lemma_eq_symmetric(*b1, *b2, cmp_binders);
        },
        (Expr::ForallE(_, t1, b1, _), Expr::ForallE(_, t2, b2, _)) => {
            lemma_eq_symmetric(*t1, *t2, cmp_binders);
            lemma_eq_symmetric(*b1, *b2, cmp_binders);
        },
        (Expr::LetE(_, t1, v1, b1, _), Expr::LetE(_, t2, v2, b2, _)) => {
            lemma_eq_symmetric(*t1, *t2, cmp_binders);
            lemma_eq_symmetric(*v1, *v2, cmp_binders);
            lemma_eq_symmetric(*b1, *b2, cmp_binders);
        },
        _ => {},
    }
}

/// The comparison is transitive.
pub proof fn lemma_eq_transitive(a: Expr, b: Expr, c: Expr, cmp_binders: bool)
    requires
        expr_eq_spec(a, b, cmp_binders),
        expr_eq_spec(b, c, cmp_binders),
    ensures
        expr_eq_spec(a, c, cmp_binders),
    decreases a,
{
    match (a, b, c) {
        (Expr::MData(_, e1), Expr::MData(_, e2), Expr::MData(_, e3)) => lemma_eq_transitive(
            *e1,
            *e2,
            *e3,
            cmp_binders,
        ),
        (Expr::Proj(_, _, e1), Expr::Proj(_, _, e2), Expr::Proj(_, _, e3)) => lemma_eq_transitive(
            *e1,
            *e2,
            *e3,
            cmp_binders,
        ),
        (Expr::App(f1, a1), Expr::App(f2, a2), Expr::App(f3, a3)) => {
            lemma_eq_transitive(*f1, *f2, *f3, cmp_binders);
            lemma_eq_transitive(*a1, *a2, *a3, cmp_binders);
        },
        (Expr::Lam(_, t1, b1, _), Expr::Lam(_, t2, b2, _), Expr::Lam(_, t3, b3, _)) => {
            lemma_eq_transitive(*t1, *t2, *t3, cmp_binders);
            lemma_eq_transitive(*b1, *b2, *b3, cmp_binders);
        },
        (Expr::ForallE(_, t1, b1, _), Expr::ForallE(_, t2, b2, _), Expr::ForallE(_, t3, b3, _)) => {
            lemma_eq_transitive(*t1, *t2, *t3, cmp_binders);
            lemma_eq_transitive(*b1, *b2, *b3, cmp_binders);
        },
        (Expr::LetE(_, t1, v1, b1, _), Expr::LetE(_, t2, v2, b2, _), Expr::LetE(_, t3, v3, b3, _)) => {
            lemma_eq_transitive(*t1, *t2, *t3, cmp_binders);
            lemma_eq_transitive(*v1, *v2, *v3, cmp_binders);
            lemma_eq_transitive(*b1, *b2, *b3, cmp_binders);
        },
        _ => {},
    }
}

/// Equality with binder names and annotations implies equality without.
pub proof fn lemma_equal_implies_eqv(a: Expr, b: Expr)
    requires
        expr_eq_spec(a, b, true),
    ensures
        expr_eq_spec(a, b, false),
{
    lemma_equal_is_identity(a, b);
    lemma_eq_reflexive(a, false);
}

/// `e` with the name and annotation of every binder replaced by a fixed
/// one: what remains once binder names and annotations are ignored.
pub open spec fn erase_binders(e: Expr) -> Expr
    decreases e,
{
    match e {
        Expr::App(f, a) => Expr::App(Box::new(erase_binders(*f)), Box::new(erase_binders(*a))),
        Expr::Lam(_, t, b, _) => Expr::Lam(
            Name { id: 0 },
            Box::new(erase_binders(*t)),
            Box::new(erase_binders(*b)),
            BinderInfo::Default,
        ),
        Expr::ForallE(_, t, b, _) => Expr::ForallE(
            Name { id: 0 },
            Box::new(erase_binders(*t)),
            Box::new(erase_binders(*b)),
            BinderInfo::Default,
        ),
        Expr::LetE(_, t, v, b, nd) => Expr::LetE(
            Name { id: 0 },
            Box::new(erase_binders(*t)),
            Box::new(erase_binders(*v)),
            Box::new(erase_binders(*b)),
            nd,
        ),
        Expr::MData(m, b) => Expr::MData(m, Box::new(erase_binders(*b))),
        Expr::Proj(n, k, b) => Expr::Proj(n, k, Box::new(erase_binders(*b))),
        _ => e,
    }
}

/// Comparing without binder information ignores binder names and
/// annotations and nothing else: two expressions are equivalent exactly
/// when they are the same once those are erased.  In particular two free
/// (or meta) variables, constants or sorts are equivalent only when they are
/// the same.
pub proof fn lemma_eqv_is_equality_up_to_binders(a: Expr, b: Expr)
    ensures
        expr_eq_spec(a, b, false) <==> erase_binders(a) == erase_binders(b),
    decreases a,
{
    match (a, b) {
        (Expr::MData(_, e1), Expr::MData(_, e2)) => {
            lemma_eqv_is_equality_up_to_binders(*e1, *e2);
        },
        (Expr::Proj(_, _, e1), Expr::Proj(_, _, e2)) => {
            lemma_eqv_is_equality_up_to_binders(*e1, *e2);
        },
        (Expr::App(f1, a1), Expr::App(f2, a2)) => {
            lemma_eqv_is_equality_up_to_binders(*f1, *f2);
            lemma_eqv_is_equality_up_to_binders(*a1, *a2);
        },
        (Expr::Lam(_, t1, b1, _), Expr::Lam(_, t2, b2, _)) => {
            lemma_eqv_is_equality_up_to_binders(*t1, *t2);
            lemma_eqv_is_equality_up_to_binders(*b1, *b2);
        },
        (Expr::ForallE(_, t1, b1, _), Expr::ForallE(_, t2, b2, _)) => {
            lemma_eqv_is_equality_up_to_binders(*t1, *t2);
            lemma_eqv_is_equality_up_to_binders(*b1, *b2);
        },
        (Expr::LetE(_, t1, v1, b1, _), Expr::LetE(_, t2, v2, b2, _)) => {
            lemma_eqv_is_equality_up_to_binders(*t1, *t2);
            lemma_eqv_is_equality_up_to_binders(*v1, *v2);
            lemma_eqv_is_equality_up_to_binders(*b1, *b2);
        },
        _ => {},
    }
}

/// The two comparisons of two free variables, of two metavariables and of
/// two bound variables: both hold exactly when the two are the same.
pub proof fn lemma_eq_variables(x: Expr, y: Expr, cmp_binders: bool)
    requires
        (x is FVar && y is FVar) || (x is MVar && y is MVar) || (x is BVar && y is BVar),
    ensures
        expr_eq_spec(x, y, cmp_binders) <==> x == y,
{
    lemma_eqv_is_equality_up_to_binders(x, y);
    lemma_equal_is_identity(x, y);
}

} // verus!
