//! Instantiating loose bound variables with expressions, and abstracting
//! free (or meta) variables into bound variables.
use vstd::prelude::*;
use crate::expr::{Expr, wf_expr, clone_expr, MAX_BVAR_RANGE};
use crate::bvars::{lift_spec, lift_ok, lift_loose_bvars, lemma_shift_by_zero, loose_bvar_range,
    lift_within_bounds};
use crate::ptr::{LeanPtr, is_scalar_spec, unbox_spec};

verus! {

/// Every expression of a sequence is well formed.
pub open spec fn all_wf(s: Seq<Expr>) -> bool {
    forall|k: int| 0 <= k < s.len() ==> #[trigger] wf_expr(s[k])
}

/// The expression that replaces loose bound variable `k` (counted from the
/// innermost binder): the `k`-th of `subst`, or the `k`-th from the end
/// when `rev`.
pub open spec fn subst_at(subst: Seq<Expr>, rev: bool, k: nat) -> Expr {
    if rev {
        subst[subst.len() - 1 - k]
    } else {
        subst[k as int]
    }
}

/// `e` with its loose bound variables `0 .. subst.len()` (seen from `off`
/// binders down) replaced by the expressions of `subst`, lifted over the
/// `off` binders, and the loose bound variables above them lowered by
/// `subst.len()`.
pub open spec fn instantiate_spec(e: Expr, subst: Seq<Expr>, rev: bool, off: nat) -> Expr
    decreases e,
{
    match e {
        Expr::BVar(i) => if i < off {
            e
        } else if i - off < subst.len() {
            lift_spec(subst_at(subst, rev, (i - off) as nat), 0, off, 0)
        } else {
            Expr::BVar((i - subst.len()) as u64)
        },
        Expr::App(f, a) => Expr::App(
            Box::new(instantiate_spec(*f, subst, rev, off)),
            Box::new(instantiate_spec(*a, subst, rev, off)),
        ),
        Expr::Lam(n, t, b, bi) => Expr::Lam(
            n,
            Box::new(instantiate_spec(*t, subst, rev, off)),
            Box::new(instantiate_spec(*b, subst, rev, off + 1)),
            bi,
        ),
        Expr::ForallE(n, t, b, bi) => Expr::ForallE(
            n,
            Box::new(instantiate_spec(*t, subst, rev, off)),
            Box::new(instantiate_spec(*b, subst, rev, off + 1)),
            bi,
        ),
        Expr::LetE(n, t, v, b, nd) => Expr::LetE(
            n,
            Box::new(instantiate_spec(*t, subst, rev, off)),
            Box::new(instantiate_spec(*v, subst, rev, off)),
            Box::new(instantiate_spec(*b, subst, rev, off + 1)),
            nd,
        ),
        Expr::MData(m, b) => Expr::MData(m, Box::new(instantiate_spec(*b, subst, rev, off))),
        Expr::Proj(n, k, b) => Expr::Proj(n, k, Box::new(instantiate_spec(*b, subst, rev, off))),
        _ => e,
    }
}

/// Every replacement that instantiation makes can be lifted over the
/// binders it crosses without an index reaching `MAX_BVAR_RANGE`.
pub open spec fn instantiate_ok(e: Expr, subst: Seq<Expr>, rev: bool, off: nat) -> bool
    decreases e,
{
    match e {
        Expr::BVar(i) => off <= i < off + subst.len() ==> lift_ok(
            subst_at(subst, rev, (i - off) as nat),
            0,
            off,
            0,
        ),
        Expr::App(f, a) => instantiate_ok(*f, subst, rev, off) && instantiate_ok(
            *a,
            subst,
            rev,
            off,
        ),
        Expr::Lam(_, t, b, _) => instantiate_ok(*t, subst, rev, off) && instantiate_ok(
            *b,
            subst,
            rev,
            off + 1,
        ),
        Expr::ForallE(_, t, b, _) => instantiate_ok(*t, subst, rev, off) && instantiate_ok(
            *b,
            subst,
            rev,
            off + 1,
        ),
        Expr::LetE(_, t, v, b, _) => instantiate_ok(*t, subst, rev, off) && instantiate_ok(
            *v,
            subst,
            rev,
            off,
        ) && instantiate_ok(*b, subst, rev, off + 1),
        Expr::MData(_, b) => instantiate_ok(*b, subst, rev, off),
        Expr::Proj(_, _, b) => instantiate_ok(*b, subst, rev, off),
        _ => true,
    }
}

/// In a well-formed expression no loose bound variable is reached from
/// `MAX_BVAR_RANGE` binders down, so instantiating there changes nothing.
pub proof fn lemma_instantiate_beyond_bound(e: Expr, subst: Seq<Expr>, rev: bool, off: nat)
    requires
        wf_expr(e),
        off >= MAX_BVAR_RANGE,
    ensures
        instantiate_spec(e, subst, rev, off) == e,
        instantiate_ok(e, subst, rev, off),
    decreases e,
{
    match e {
        Expr::App(f, a) => {
            lemma_instantiate_beyond_bound(*f, subst, rev, off);
            lemma_instantiate_beyond_bound(*a, subst, rev, off);
        },
        Expr::Lam(_, t, b, _) => {
            lemma_instantiate_beyond_bound(*t, subst, rev, off);
            lemma_instantiate_beyond_bound(*b, subst, rev, off + 1);
        },
        Expr::ForallE(_, t, b, _) => {
            lemma_instantiate_beyond_bound(*t, subst, rev, off);
            lemma_instantiate_beyond_bound(*b, subst, rev, off + 1);
        },
        Expr::LetE(_, t, v, b, _) => {
            lemma_instantiate_beyond_bound(*t, subst, rev, off);
            lemma_instantiate_beyond_bound(*v, subst, rev, off);
            lemma_instantiate_beyond_bound(*b, subst, rev, off + 1);
        },
        Expr::MData(_, b) => {
            lemma_instantiate_beyond_bound(*b, subst, rev, off);
        },
        Expr::Proj(_, _, b) => {
            lemma_instantiate_beyond_bound(*b, subst, rev, off);
        },
        _ => {},
    }
}

/// Whether instantiating the loose bound variables of `e` with the
/// expressions `subst[lo..hi]` (the last first when `rev`) keeps every index
/// below `MAX_BVAR_RANGE`.
pub fn instantiate_within_bounds(e: &Expr, subst: &Vec<Expr>, lo: usize, hi: usize, rev: bool) -> (r:
    bool)
    requires
        wf_expr(*e),
        lo <= hi <= subst@.len(),
        all_wf(subst@.subrange(lo as int, hi as int)),
    ensures
        r == instantiate_ok(*e, subst@.subrange(lo as int, hi as int), rev, 0),
{
    instantiate_ok_go(e, subst, lo, hi, rev, 0)
}

fn instantiate_ok_go(e: &Expr, subst: &Vec<Expr>, lo: usize, hi: usize, rev: bool, off: u64) -> (r:
    bool)
    requires
        wf_expr(*e),
        lo <= hi <= subst@.len(),
        all_wf(subst@.subrange(lo as int, hi as int)),
        off <= MAX_BVAR_RANGE,
    ensures
        r == instantiate_ok(*e, subst@.subrange(lo as int, hi as int), rev, off as nat),
    decreases e,
{
    let ghost sub = subst@.subrange(lo as int, hi as int);
    if off == MAX_BVAR_RANGE {
        proof {
            lemma_instantiate_beyond_bound(*e, sub, rev, off as nat);
        }
        return true;
    }
    match e {
        Expr::BVar(i) => {
            let n = (hi - lo) as u64;
            if *i < off || *i - off >= n {
                true
            } else {
                let k = (*i - off) as usize;
                let x = if rev {
                    &subst[hi - 1 - k]
                } else {
                    &subst[lo + k]
                };
                proof {
                    assert(*x == subst_at(sub, rev, k as nat));
                    assert(wf_expr(sub[if rev { sub.len() - 1 - k } else { k as int }]));
                }
                lift_within_bounds(x, 0, off as u32)
            }
        },
        Expr::App(f, a) => instantiate_ok_go(f, subst, lo, hi, rev, off) && instantiate_ok_go(
            a,
            subst,
            lo,
            hi,
            rev,
            off,
        ),
        Expr::Lam(_, t, b, _) => instantiate_ok_go(t, subst, lo, hi, rev, off) && instantiate_ok_go(
            b,
            subst,
            lo,
            hi,
            rev,
            off + 1,
        ),
        Expr::ForallE(_, t, b, _) => instantiate_ok_go(t, subst, lo, hi, rev, off)
            && instantiate_ok_go(b, subst, lo, hi, rev, off + 1),
        Expr::LetE(_, t, v, b, _) => instantiate_ok_go(t, subst, lo, hi, rev, off)
            && instantiate_ok_go(v, subst, lo, hi, rev, off) && instantiate_ok_go(
            b,
            subst,
            lo,
            hi,
            rev,
            off + 1,
        ),
        Expr::MData(_, b) => instantiate_ok_go(b, subst, lo, hi, rev, off),
        Expr::Proj(_, _, b) => instantiate_ok_go(b, subst, lo, hi, rev, off),
        _ => true,
    }
}

/// Instantiating a well-formed expression with well-formed expressions,
/// within bounds, gives a well-formed expression.
pub proof fn lemma_instantiate_wf(e: Expr, subst: Seq<Expr>, rev: bool, off: nat)
    requires
        wf_expr(e),
        all_wf(subst),
        instantiate_ok(e, subst, rev, off),
    ensures
        wf_expr(instantiate_spec(e, subst, rev, off)),
    decreases e,
{
    match e {
        Expr::BVar(i) => {
            if i >= off && i - off < subst.len() {
                let k = (i - off) as nat;
                let v = subst_at(subst, rev, k);
                if rev {
                    assert(wf_expr(subst[subst.len() - 1 - k]));
                } else {
                    assert(wf_expr(subst[k as int]));
                }
                crate::bvars::lemma_lift_wf(v, 0, off, 0);
            }
        },
        Expr::App(f, a) => {
            lemma_instantiate_wf(*f, subst, rev, off);
            lemma_instantiate_wf(*a, subst, rev, off);
        },
        Expr::Lam(_, t, b, _) => {
            lemma_instantiate_wf(*t, subst, rev, off);
            lemma_instantiate_wf(*b, subst, rev, off + 1);
        },
        Expr::ForallE(_, t, b, _) => {
            lemma_instantiate_wf(*t, subst, rev, off);
            lemma_instantiate_wf(*b, subst, rev, off + 1);
        },
        Expr::LetE(_, t, v, b, _) => {
            lemma_instantiate_wf(*t, subst, rev, off);
            lemma_instantiate_wf(*v, subst, rev, off);
            lemma_instantiate_wf(*b, subst, rev, off + 1);
        },
        Expr::MData(_, b) => {
            lemma_instantiate_wf(*b, subst, rev, off);
        },
        Expr::Proj(_, _, b) => {
            lemma_instantiate_wf(*b, subst, rev, off);
        },
        _ => {},
    }
}

/// An instantiation: the `n` expressions of `subst` from `begin` on, taken in
/// order or (when `reverse`) from the last.
pub struct ExprInstantiate<'a> {
    pub subst: &'a Vec<Expr>,
    pub begin: usize,
    pub n: usize,
    pub reverse: bool,
}

impl<'a> ExprInstantiate<'a> {
    /// The expressions this instantiation substitutes.
    pub open spec fn subst_seq(&self) -> Seq<Expr> {
        self.subst@.subrange(self.begin as int, self.begin + self.n)
    }

    /// The substituted range lies in `subst` and its expressions are well
    /// formed.
    pub open spec fn valid(&self) -> bool {
        &&& self.begin + self.n <= self.subst@.len()
        &&& all_wf(self.subst_seq())
    }

    /// The instantiation by the `n` expressions of `subst` from `begin` on.
    pub fn new(subst: &'a Vec<Expr>, begin: usize, n: usize, reverse: bool) -> (r: Self)
        ensures
            r.subst == subst,
            r.begin == begin,
            r.n == n,
            r.reverse == reverse,
    {
        ExprInstantiate { subst, begin, n, reverse }
    }

    /// Instantiates the loose bound variables of `e` seen from `offset`
    /// binders down.
    pub fn apply(&self, e: Expr, offset: usize) -> (r: Expr)
        requires
            self.valid(),
            wf_expr(e),
            instantiate_ok(e, self.subst_seq(), self.reverse, offset as nat),
        ensures
            r == instantiate_spec(e, self.subst_seq(), self.reverse, offset as nat),
        decreases e,
    {
        if offset as u64 >= MAX_BVAR_RANGE {
            proof {
                lemma_instantiate_beyond_bound(e, self.subst_seq(), self.reverse, offset as nat);
            }
            return e;
        }
        match e {
            Expr::BVar(vidx) => {
                if vidx >= offset as u64 {
                    let k = (vidx - offset as u64) as usize;
                    if k < self.n {
                        let idx = if self.reverse {
                            self.n - k - 1
                        } else {
                            k
                        };
                        assert(idx < self.n);
                        assert(self.subst.len() == self.subst@.len());
                        let v = &self.subst[self.begin + idx];
                        proof {
                            assert(self.subst_seq()[idx as int] == self.subst@[self.begin + idx]);
                            assert(*v == subst_at(self.subst_seq(), self.reverse, k as nat));
                            assert(wf_expr(self.subst_seq()[idx as int]));
                        }
                        if offset == 0 {
                            proof {
                                lemma_shift_by_zero(*v, 0, 0);
                            }
                            clone_expr(v)
                        } else {
                            lift_loose_bvars(clone_expr(v), 0, offset as u32)
                        }
                    } else {
                        Expr::BVar(vidx - self.n as u64)
                    }
                } else {
                    Expr::BVar(vidx)
                }
            },
            Expr::App(f, a) => {
                let f_new = self.apply(*f, offset);
                let a_new = self.apply(*a, offset);
                Expr::App(Box::new(f_new), Box::new(a_new))
            },
            Expr::Lam(nm, t, b, bi) => {
                let t_new = self.apply(*t, offset);
                let b_new = self.apply(*b, offset + 1);
                Expr::Lam(nm, Box::new(t_new), Box::new(b_new), bi)
            },
            Expr::ForallE(nm, t, b, bi) => {
                let t_new = self.apply(*t, offset);
                let b_new = self.apply(*b, offset + 1);
                Expr::ForallE(nm, Box::new(t_new), Box::new(b_new), bi)
            },
            Expr::LetE(nm, t, v, b, nd) => {
                let t_new = self.apply(*t, offset);
                let v_new = self.apply(*v, offset);
                let b_new = self.apply(*b, offset + 1);
                Expr::LetE(nm, Box::new(t_new), Box::new(v_new), Box::new(b_new), nd)
            },
            Expr::MData(m, b) => {
                let b_new = self.apply(*b, offset);
                Expr::MData(m, Box::new(b_new))
            },
            Expr::Proj(nm, i, b) => {
                let b_new = self.apply(*b, offset);
                Expr::Proj(nm, i, Box::new(b_new))
            },
            _ => e,
        }
    }
}

/// Instantiates the loose bound variable 0 of `a` with `e` (and lowers the
/// others by one).
pub fn lean_expr_instantiate1_rs(a: Expr, e: &Expr) -> (r: Expr)
    requires
        wf_expr(a),
        wf_expr(*e),
        instantiate_ok(a, seq![*e], false, 0),
    ensures
        r == instantiate_spec(a, seq![*e], false, 0),
        wf_expr(r),
{
    let mut subst: Vec<Expr> = Vec::new();
    subst.push(clone_expr(e));
    let inst = ExprInstantiate::new(&subst, 0, 1, false);
    proof {
        assert(inst.subst_seq() =~= seq![*e]);
        lemma_instantiate_wf(a, seq![*e], false, 0);
    }
    inst.apply(a, 0)
}

/// Instantiates the loose bound variables `0 .. subst.len()` of `a` with
/// the expressions of `subst`, in order.
pub fn lean_expr_instantiate_rs(a: Expr, subst: &Vec<Expr>) -> (r: Expr)
    requires
        wf_expr(a),
        all_wf(subst@),
        instantiate_ok(a, subst@, false, 0),
    ensures
        r == instantiate_spec(a, subst@, false, 0),
        wf_expr(r),
{
    let inst = ExprInstantiate::new(subst, 0, subst.len(), false);
    proof {
        assert(inst.subst_seq() =~= subst@);
        lemma_instantiate_wf(a, subst@, false, 0);
    }
    inst.apply(a, 0)
}

/// Instantiates the loose bound variables `0 .. subst.len()` of `a` with
/// the expressions of `subst` taken from the last.
pub fn lean_expr_instantiate_rev_rs(a: Expr, subst: &Vec<Expr>) -> (r: Expr)
    requires
        wf_expr(a),
        all_wf(subst@),
        instantiate_ok(a, subst@, true, 0),
    ensures
        r == instantiate_spec(a, subst@, true, 0),
        wf_expr(r),
{
    let inst = ExprInstantiate::new(subst, 0, subst.len(), true);
    proof {
        assert(inst.subst_seq() =~= subst@);
        lemma_instantiate_wf(a, subst@, true, 0);
    }
    inst.apply(a, 0)
}

/// Instantiates with the expressions `subst[begin .. end]`, in order; the
/// bounds are Lean natural numbers, boxed scalars with
/// `begin <= end <= subst.len()`.
pub fn lean_expr_instantiate_range_rs(a: Expr, begin: LeanPtr, end: LeanPtr, subst: &Vec<Expr>) -> (r:
    Expr)
    requires
        wf_expr(a),
        is_scalar_spec(begin.0),
        is_scalar_spec(end.0),
        unbox_spec(begin.0) <= unbox_spec(end.0) <= subst@.len(),
        all_wf(subst@.subrange(unbox_spec(begin.0) as int, unbox_spec(end.0) as int)),
        instantiate_ok(
            a,
            subst@.subrange(unbox_spec(begin.0) as int, unbox_spec(end.0) as int),
            false,
            0,
        ),
    ensures
        r == instantiate_spec(
            a,
            subst@.subrange(unbox_spec(begin.0) as int, unbox_spec(end.0) as int),
            false,
            0,
        ),
        wf_expr(r),
{
    let b = begin.unbox_scalar();
    let e = end.unbox_scalar();
    let inst = ExprInstantiate::new(subst, b, e - b, false);
    proof {
        lemma_instantiate_wf(a, inst.subst_seq(), false, 0);
    }
    inst.apply(a, 0)
}

/// Instantiates with the expressions `subst[begin .. end]` taken from the
/// last; the bounds are Lean natural numbers, boxed scalars with
/// `begin <= end <= subst.len()`.
pub fn lean_expr_instantiate_rev_range_rs(
    a: Expr,
    begin: LeanPtr,
    end: LeanPtr,
    subst: &Vec<Expr>,
) -> (r: Expr)
    requires
        wf_expr(a),
        is_scalar_spec(begin.0),
        is_scalar_spec(end.0),
        unbox_spec(begin.0) <= unbox_spec(end.0) <= subst@.len(),
        all_wf(subst@.subrange(unbox_spec(begin.0) as int, unbox_spec(end.0) as int)),
        instantiate_ok(
            a,
            subst@.subrange(unbox_spec(begin.0) as int, unbox_spec(end.0) as int),
            true,
            0,
        ),
    ensures
        r == instantiate_spec(
            a,
            subst@.subrange(unbox_spec(begin.0) as int, unbox_spec(end.0) as int),
            true,
            0,
        ),
        wf_expr(r),
{
    let b = begin.unbox_scalar();
    let e = end.unbox_scalar();
    let inst = ExprInstantiate::new(subst, b, e - b, true);
    proof {
        lemma_instantiate_wf(a, inst.subst_seq(), true, 0);
    }
    inst.apply(a, 0)
}

/// The position of the last of the first `k` expressions of `subst` that is
/// `e` itself.
pub open spec fn last_match(subst: Seq<Expr>, k: nat, e: Expr) -> Option<nat>
    decreases k,
{
    if k == 0 {
        None
    } else if subst[k - 1] == e {
        Some((k - 1) as nat)
    } else {
        last_match(subst, (k - 1) as nat, e)
    }
}

/// `e` with each free or meta variable that occurs among the first `n`
/// expressions of `subst` replaced by a bound variable: the last occurrence,
/// at position `i`, becomes bound variable `n - i - 1` (seen from `off`
/// binders down).
pub open spec fn abstract_spec(e: Expr, subst: Seq<Expr>, n: nat, off: nat) -> Expr
    decreases e,
{
    match e {
        Expr::FVar(_) | Expr::MVar(_) => match last_match(subst, n, e) {
            Some(i) => Expr::BVar((off + n - i - 1) as u64),
            None => e,
        },
        Expr::App(f, a) => Expr::App(
            Box::new(abstract_spec(*f, subst, n, off)),
            Box::new(abstract_spec(*a, subst, n, off)),
        ),
        Expr::Lam(nm, t, b, bi) => Expr::Lam(
            nm,
            Box::new(abstract_spec(*t, subst, n, off)),
            Box::new(abstract_spec(*b, subst, n, off + 1)),
            bi,
        ),
        Expr::ForallE(nm, t, b, bi) => Expr::ForallE(
            nm,
            Box::new(abstract_spec(*t, subst, n, off)),
            Box::new(abstract_spec(*b, subst, n, off + 1)),
            bi,
        ),
        Expr::LetE(nm, t, v, b, nd) => Expr::LetE(
            nm,
            Box::new(abstract_spec(*t, subst, n, off)),
            Box::new(abstract_spec(*v, subst, n, off)),
            Box::new(abstract_spec(*b, subst, n, off + 1)),
            nd,
        ),
        Expr::MData(m, b) => Expr::MData(m, Box::new(abstract_spec(*b, subst, n, off))),
        Expr::Proj(nm, k, b) => Expr::Proj(nm, k, Box::new(abstract_spec(*b, subst, n, off))),
        _ => e,
    }
}

/// Every bound variable that abstraction makes stays below
/// `MAX_BVAR_RANGE` (Lean refuses to build it otherwise).
pub open spec fn abstract_ok(e: Expr, subst: Seq<Expr>, n: nat, off: nat) -> bool
    decreases e,
{
    match e {
        Expr::FVar(_) | Expr::MVar(_) => match last_match(subst, n, e) {
            Some(i) => off + n - i - 1 < MAX_BVAR_RANGE,
            None => true,
        },
        Expr::App(f, a) => abstract_ok(*f, subst, n, off) && abstract_ok(*a, subst, n, off),
        Expr::Lam(_, t, b, _) => abstract_ok(*t, subst, n, off) && abstract_ok(
            *b,
            subst,
            n,
            off + 1,
        ),
        Expr::ForallE(_, t, b, _) => abstract_ok(*t, subst, n, off) && abstract_ok(
            *b,
            subst,
            n,
            off + 1,
        ),
        Expr::LetE(_, t, v, b, _) => abstract_ok(*t, subst, n, off) && abstract_ok(
            *v,
            subst,
            n,
            off,
        ) && abstract_ok(*b, subst, n, off + 1),
        Expr::MData(_, b) => abstract_ok(*b, subst, n, off),
        Expr::Proj(_, _, b) => abstract_ok(*b, subst, n, off),
        _ => true,
    }
}

proof fn lemma_last_match_bound(subst: Seq<Expr>, k: nat, e: Expr)
    ensures
        last_match(subst, k, e) matches Some(i) ==> i < k && subst[i as int] == e,
        last_match(subst, k, e) is None ==> forall|j: int| 0 <= j < k ==> subst[j] != e,
    decreases k,
{
    if k > 0 {
        lemma_last_match_bound(subst, (k - 1) as nat, e);
    }
}

/// From `MAX_BVAR_RANGE` binders down, an abstraction within bounds can
/// make no bound variable, so it changes nothing.
proof fn lemma_abstract_beyond_bound(e: Expr, subst: Seq<Expr>, n: nat, off: nat)
    requires
        off >= MAX_BVAR_RANGE,
        abstract_ok(e, subst, n, off),
    ensures
        abstract_spec(e, subst, n, off) == e,
    decreases e,
{
    match e {
        Expr::FVar(_) | Expr::MVar(_) => {
            lemma_last_match_bound(subst, n, e);
        },
        Expr::App(f, a) => {
            lemma_abstract_beyond_bound(*f, subst, n, off);
            lemma_abstract_beyond_bound(*a, subst, n, off);
        },
        Expr::Lam(_, t, b, _) => {
            lemma_abstract_beyond_bound(*t, subst, n, off);
            lemma_abstract_beyond_bound(*b, subst, n, off + 1);
        },
        Expr::ForallE(_, t, b, _) => {
            lemma_abstract_beyond_bound(*t, subst, n, off);
            lemma_abstract_beyond_bound(*b, subst, n, off + 1);
        },
        Expr::LetE(_, t, v, b, _) => {
            lemma_abstract_beyond_bound(*t, subst, n, off);
            lemma_abstract_beyond_bound(*v, subst, n, off);
            lemma_abstract_beyond_bound(*b, subst, n, off + 1);
        },
        Expr::MData(_, b) => {
            lemma_abstract_beyond_bound(*b, subst, n, off);
        },
        Expr::Proj(_, _, b) => {
            lemma_abstract_beyond_bound(*b, subst, n, off);
        },
        _ => {},
    }
}

/// Abstracting a well-formed expression within bounds gives a well-formed
/// expression.
pub proof fn lemma_abstract_wf(e: Expr, subst: Seq<Expr>, n: nat, off: nat)
    requires
        wf_expr(e),
        abstract_ok(e, subst, n, off),
    ensures
        wf_expr(abstract_spec(e, subst, n, off)),
    decreases e,
{
    match e {
        Expr::FVar(_) | Expr::MVar(_) => {
            lemma_last_match_bound(subst, n, e);
        },
        Expr::App(f, a) => {
            lemma_abstract_wf(*f, subst, n, off);
            lemma_abstract_wf(*a, subst, n, off);
        },
        Expr::Lam(_, t, b, _) => {
            lemma_abstract_wf(*t, subst, n, off);
            lemma_abstract_wf(*b, subst, n, off + 1);
        },
        Expr::ForallE(_, t, b, _) => {
            lemma_abstract_wf(*t, subst, n, off);
            lemma_abstract_wf(*b, subst, n, off + 1);
        },
        Expr::LetE(_, t, v, b, _) => {
            lemma_abstract_wf(*t, subst, n, off);
            lemma_abstract_wf(*v, subst, n, off);
            lemma_abstract_wf(*b, subst, n, off + 1);
        },
        Expr::MData(_, b) => {
            lemma_abstract_wf(*b, subst, n, off);
        },
        Expr::Proj(_, _, b) => {
            lemma_abstract_wf(*b, subst, n, off);
        },
        _ => {},
    }
}

/// From `MAX_BVAR_RANGE` binders down an abstraction is within bounds
/// exactly when it makes no bound variable, however deep it is seen from.
proof fn lemma_abstract_ok_saturates(e: Expr, subst: Seq<Expr>, n: nat, a: nat, b: nat)
    requires
        a == b || (a >= MAX_BVAR_RANGE && b >= MAX_BVAR_RANGE),
    ensures
        abstract_ok(e, subst, n, a) == abstract_ok(e, subst, n, b),
    decreases e,
{
    match e {
        Expr::FVar(_) | Expr::MVar(_) => {
            lemma_last_match_bound(subst, n, e);
        },
        Expr::App(f, x) => {
            lemma_abstract_ok_saturates(*f, subst, n, a, b);
            lemma_abstract_ok_saturates(*x, subst, n, a, b);
        },
        Expr::Lam(_, t, x, _) => {
            lemma_abstract_ok_saturates(*t, subst, n, a, b);
            lemma_abstract_ok_saturates(*x, subst, n, a + 1, b + 1);
        },
        Expr::ForallE(_, t, x, _) => {
            lemma_abstract_ok_saturates(*t, subst, n, a, b);
            lemma_abstract_ok_saturates(*x, subst, n, a + 1, b + 1);
        },
        Expr::LetE(_, t, v, x, _) => {
            lemma_abstract_ok_saturates(*t, subst, n, a, b);
            lemma_abstract_ok_saturates(*v, subst, n, a, b);
            lemma_abstract_ok_saturates(*x, subst, n, a + 1, b + 1);
        },
        Expr::MData(_, x) => lemma_abstract_ok_saturates(*x, subst, n, a, b),
        Expr::Proj(_, _, x) => lemma_abstract_ok_saturates(*x, subst, n, a, b),
        _ => {},
    }
}

/// An abstraction over the first `n` expressions of `subst`.
pub struct ExprAbstract<'a> {
    pub subst: &'a Vec<Expr>,
    pub n: usize,
}

impl<'a> ExprAbstract<'a> {
    /// The abstraction over the first `n` expressions of `subst`.
    pub fn new(subst: &'a Vec<Expr>, n: usize) -> (r: Self)
        ensures
            r.subst == subst,
            r.n == n,
    {
        ExprAbstract { subst, n }
    }

    /// The position of the last of the first `n` expressions that is the
    /// variable `e`.
    fn find_var(&self, e: &Expr) -> (r: Option<usize>)
        requires
            self.n <= self.subst@.len(),
            e is FVar || e is MVar,
        ensures
            r == (match last_match(self.subst@, self.n as nat, *e) {
                Some(i) => Some(i as usize),
                None => None::<usize>,
            }),
    {
        let mut i = self.n;
        while i > 0
            invariant
                i <= self.n <= self.subst@.len(),
                e is FVar || e is MVar,
                last_match(self.subst@, self.n as nat, *e) == last_match(
                    self.subst@,
                    i as nat,
                    *e,
                ),
            decreases i,
        {
            i -= 1;
            let v = &self.subst[i];
            let matches = match (e, v) {
                (Expr::FVar(a), Expr::FVar(b)) => *a == *b,
                (Expr::MVar(a), Expr::MVar(b)) => *a == *b,
                _ => false,
            };
            if matches {
                return Some(i);
            }
        }
        None
    }

    /// Whether abstracting `e`, seen from `offset` binders down (at most
    /// `MAX_BVAR_RANGE`), keeps every index below `MAX_BVAR_RANGE`.
    pub fn within_bounds(&self, e: &Expr, offset: u64) -> (r: bool)
        requires
            self.n <= self.subst@.len(),
            offset <= MAX_BVAR_RANGE,
        ensures
            r == abstract_ok(*e, self.subst@, self.n as nat, offset as nat),
        decreases e,
    {
        let next = if offset < MAX_BVAR_RANGE {
            offset + 1
        } else {
            offset
        };
        match e {
            Expr::FVar(_) | Expr::MVar(_) => match self.find_var(e) {
                Some(i) => {
                    proof {
                        lemma_last_match_bound(self.subst@, self.n as nat, *e);
                    }
                    ((self.n - i - 1) as u64) < MAX_BVAR_RANGE - offset
                },
                None => true,
            },
            Expr::App(f, a) => self.within_bounds(f, offset) && self.within_bounds(a, offset),
            Expr::Lam(_, t, b, _) => {
                proof {
                    lemma_abstract_ok_saturates(
                        **b,
                        self.subst@,
                        self.n as nat,
                        offset as nat + 1,
                        next as nat,
                    );
                }
                self.within_bounds(t, offset) && self.within_bounds(b, next)
            },
            Expr::ForallE(_, t, b, _) => {
                proof {
                    lemma_abstract_ok_saturates(
                        **b,
                        self.subst@,
                        self.n as nat,
                        offset as nat + 1,
                        next as nat,
                    );
                }
                self.within_bounds(t, offset) && self.within_bounds(b, next)
            },
            Expr::LetE(_, t, v, b, _) => {
                proof {
                    lemma_abstract_ok_saturates(
                        **b,
                        self.subst@,
                        self.n as nat,
                        offset as nat + 1,
                        next as nat,
                    );
                }
                self.within_bounds(t, offset) && self.within_bounds(v, offset) && self.within_bounds(
                    b,
                    next,
                )
            },
            Expr::MData(_, b) => self.within_bounds(b, offset),
            Expr::Proj(_, _, b) => self.within_bounds(b, offset),
            _ => true,
        }
    }

    /// Abstracts the variables of `e` seen from `offset` binders down.
    pub fn apply(&self, e: Expr, offset: usize) -> (r: Expr)
        requires
            self.n <= self.subst@.len(),
            abstract_ok(e, self.subst@, self.n as nat, offset as nat),
        ensures
            r == abstract_spec(e, self.subst@, self.n as nat, offset as nat),
        decreases e,
    {
        if offset as u64 >= MAX_BVAR_RANGE {
            proof {
                lemma_abstract_beyond_bound(e, self.subst@, self.n as nat, offset as nat);
            }
            return e;
        }
        match e {
            Expr::FVar(_) | Expr::MVar(_) => {
                match self.find_var(&e) {
                    Some(i) => {
                        proof {
                            lemma_last_match_bound(self.subst@, self.n as nat, e);
                        }
                        let k = self.n - i - 1;
                        Expr::BVar((offset + k) as u64)
                    },
                    None => e,
                }
            },
            Expr::App(f, a) => {
                let f_new = self.apply(*f, offset);
                let a_new = self.apply(*a, offset);
                Expr::App(Box::new(f_new), Box::new(a_new))
            },
            Expr::Lam(nm, t, b, bi) => {
                let t_new = self.apply(*t, offset);
                let b_new = self.apply(*b, offset + 1);
                Expr::Lam(nm, Box::new(t_new), Box::new(b_new), bi)
            },
            Expr::ForallE(nm, t, b, bi) => {
                let t_new = self.apply(*t, offset);
                let b_new = self.apply(*b, offset + 1);
                Expr::ForallE(nm, Box::new(t_new), Box::new(b_new), bi)
            },
            Expr::LetE(nm, t, v, b, nd) => {
                let t_new = self.apply(*t, offset);
                let v_new = self.apply(*v, offset);
                let b_new = self.apply(*b, offset + 1);
                Expr::LetE(nm, Box::new(t_new), Box::new(v_new), Box::new(b_new), nd)
            },
            Expr::MData(m, b) => {
                let b_new = self.apply(*b, offset);
                Expr::MData(m, Box::new(b_new))
            },
            Expr::Proj(nm, i, b) => {
                let b_new = self.apply(*b, offset);
                Expr::Proj(nm, i, Box::new(b_new))
            },
            _ => e,
        }
    }
}

/// Abstracts the free and meta variables of `e` that occur in `subst`: the
/// last occurrence, at position `i`, becomes loose bound variable
/// `subst.len() - i - 1`.
pub fn lean_expr_abstract_rs(e: Expr, subst: &Vec<Expr>) -> (r: Expr)
    requires
        wf_expr(e),
        abstract_ok(e, subst@, subst@.len(), 0),
    ensures
        r == abstract_spec(e, subst@, subst@.len(), 0),
        wf_expr(r),
{
    let abs = ExprAbstract::new(subst, subst.len());
    proof {
        lemma_abstract_wf(e, subst@, subst@.len(), 0);
    }
    abs.apply(e, 0)
}

/// The number of expressions that `lean_expr_abstract_range_rs` abstracts
/// over: `n` when it is a boxed scalar no larger than the array, else the
/// whole array.
pub open spec fn abstract_range_count(n_obj: LeanPtr, size: nat) -> nat {
    if is_scalar_spec(n_obj.0) && unbox_spec(n_obj.0) < size {
        unbox_spec(n_obj.0) as nat
    } else {
        size
    }
}

/// Abstracts the free and meta variables of `e` that occur among the first
/// `n` expressions of `subst` (all of them when `n`, a Lean natural number,
/// is larger or not a boxed scalar).
pub fn lean_expr_abstract_range_rs(e: Expr, n_obj: LeanPtr, subst: &Vec<Expr>) -> (r: Expr)
    requires
        wf_expr(e),
        abstract_ok(e, subst@, abstract_range_count(n_obj, subst@.len()), 0),
    ensures
        r == abstract_spec(e, subst@, abstract_range_count(n_obj, subst@.len()), 0),
        wf_expr(r),
{
    let size = subst.len();
    let n = if n_obj.is_scalar() {
        let n_val = n_obj.unbox_scalar();
        if n_val < size {
            n_val
        } else {
            size
        }
    } else {
        size
    };
    let abs = ExprAbstract::new(subst, n);
    proof {
        lemma_abstract_wf(e, subst@, n as nat, 0);
    }
    abs.apply(e, 0)
}

proof fn lemma_last_match_prefix(subst: Seq<Expr>, k: nat, m: nat, x: Expr)
    requires
        k <= m <= subst.len(),
    ensures
        last_match(subst.take(m as int), k, x) == last_match(subst, k, x),
    decreases k,
{
    if k > 0 {
        assert(subst.take(m as int)[k - 1] == subst[k - 1]);
        lemma_last_match_prefix(subst, (k - 1) as nat, m, x);
    }
}

proof fn lemma_abstract_prefix(e: Expr, subst: Seq<Expr>, k: nat, off: nat)
    requires
        k <= subst.len(),
    ensures
        abstract_spec(e, subst.take(k as int), k, off) == abstract_spec(e, subst, k, off),
        abstract_ok(e, subst.take(k as int), k, off) == abstract_ok(e, subst, k, off),
    decreases e,
{
    match e {
        Expr::FVar(_) | Expr::MVar(_) => lemma_last_match_prefix(subst, k, k, e),
        Expr::App(f, a) => {
            lemma_abstract_prefix(*f, subst, k, off);
            lemma_abstract_prefix(*a, subst, k, off);
        },
        Expr::Lam(_, t, b, _) => {
            lemma_abstract_prefix(*t, subst, k, off);
            lemma_abstract_prefix(*b, subst, k, off + 1);
        },
        Expr::ForallE(_, t, b, _) => {
            lemma_abstract_prefix(*t, subst, k, off);
            lemma_abstract_prefix(*b, subst, k, off + 1);
        },
        Expr::LetE(_, t, v, b, _) => {
            lemma_abstract_prefix(*t, subst, k, off);
            lemma_abstract_prefix(*v, subst, k, off);
            lemma_abstract_prefix(*b, subst, k, off + 1);
        },
        Expr::MData(_, b) => lemma_abstract_prefix(*b, subst, k, off),
        Expr::Proj(_, _, b) => lemma_abstract_prefix(*b, subst, k, off),
        _ => {},
    }
}

/// Whether abstracting the variables of `e` that occur among the first `n`
/// expressions of `subst` keeps every index below `MAX_BVAR_RANGE`.
pub fn abstract_within_bounds(e: &Expr, subst: &Vec<Expr>, n: usize) -> (r: bool)
    requires
        n <= subst@.len(),
    ensures
        r == abstract_ok(*e, subst@, n as nat, 0),
{
    ExprAbstract::new(subst, n).within_bounds(e, 0)
}

/// Whether `lean_expr_abstract_range_rs` on `e`, `n_obj` and `subst` stays
/// within bounds.
pub fn abstract_range_within_bounds(e: &Expr, n_obj: LeanPtr, subst: &Vec<Expr>) -> (r: bool)
    ensures
        r == abstract_ok(*e, subst@, abstract_range_count(n_obj, subst@.len()), 0),
{
    let size = subst.len();
    let n = if n_obj.is_scalar() {
        let n_val = n_obj.unbox_scalar();
        if n_val < size {
            n_val
        } else {
            size
        }
    } else {
        size
    };
    abstract_within_bounds(e, subst, n)
}

/// Abstracting over a range is abstracting over the whole of a prefix:
/// what `lean_expr_abstract_range_rs` gives for `n_obj` is what
/// `lean_expr_abstract_rs` gives for the first `min(n, subst.len())`
/// expressions (all of them when `n_obj` is not a boxed scalar), and it is
/// within bounds exactly when that is.
pub proof fn lemma_abstract_range_is_abstract_of_prefix(e: Expr, n_obj: LeanPtr, subst: Seq<Expr>)
    ensures
        ({
            let k = abstract_range_count(n_obj, subst.len());
            let prefix = subst.take(k as int);
            &&& k <= subst.len()
            &&& prefix.len() == k
            &&& abstract_spec(e, subst, k, 0) == abstract_spec(e, prefix, prefix.len(), 0)
            &&& abstract_ok(e, subst, k, 0) == abstract_ok(e, prefix, prefix.len(), 0)
        }),
{
    let k = abstract_range_count(n_obj, subst.len());
    lemma_abstract_prefix(e, subst, k, 0);
}

/// Abstracting the variables `xs` out of an expression with no loose bound
/// variables and instantiating the result with `xs`, taken from the last,
/// gives back the expression.
pub proof fn lemma_instantiate_rev_abstract(e: Expr, xs: Seq<Expr>)
    requires
        loose_bvar_range(e) == 0,
        abstract_ok(e, xs, xs.len(), 0),
    ensures
        instantiate_ok(abstract_spec(e, xs, xs.len(), 0), xs, true, 0),
        instantiate_spec(abstract_spec(e, xs, xs.len(), 0), xs, true, 0) == e,
{
    lemma_instantiate_rev_abstract_off(e, xs, 0);
}

proof fn lemma_instantiate_rev_abstract_off(e: Expr, xs: Seq<Expr>, off: nat)
    requires
        loose_bvar_range(e) <= off,
        abstract_ok(e, xs, xs.len(), off),
    ensures
        instantiate_ok(abstract_spec(e, xs, xs.len(), off), xs, true, off),
        instantiate_spec(abstract_spec(e, xs, xs.len(), off), xs, true, off) == e,
    decreases e,
{
    match e {
        Expr::FVar(_) | Expr::MVar(_) => {
            lemma_last_match_bound(xs, xs.len(), e);
            match last_match(xs, xs.len(), e) {
                Some(i) => {
                    let n = xs.len();
                    let j: nat = (n - i - 1) as nat;
                    assert(subst_at(xs, true, j) == xs[i as int]);
                },
                None => {},
            }
        },
        Expr::App(f, a) => {
            lemma_instantiate_rev_abstract_off(*f, xs, off);
            lemma_instantiate_rev_abstract_off(*a, xs, off);
        },
        Expr::Lam(_, t, b, _) => {
            lemma_instantiate_rev_abstract_off(*t, xs, off);
            lemma_instantiate_rev_abstract_off(*b, xs, off + 1);
        },
        Expr::ForallE(_, t, b, _) => {
            lemma_instantiate_rev_abstract_off(*t, xs, off);
            lemma_instantiate_rev_abstract_off(*b, xs, off + 1);
        },
        Expr::LetE(_, t, v, b, _) => {
            lemma_instantiate_rev_abstract_off(*t, xs, off);
            lemma_instantiate_rev_abstract_off(*v, xs, off);
            lemma_instantiate_rev_abstract_off(*b, xs, off + 1);
        },
        Expr::MData(_, b) => {
            lemma_instantiate_rev_abstract_off(*b, xs, off);
        },
        Expr::Proj(_, _, b) => {
            lemma_instantiate_rev_abstract_off(*b, xs, off);
        },
        _ => {},
    }
}

/// Instantiating an expression with no loose bound variables changes
/// nothing.
pub proof fn lemma_instantiate_closed(e: Expr, subst: Seq<Expr>, rev: bool)
    requires
        loose_bvar_range(e) == 0,
    ensures
        instantiate_spec(e, subst, rev, 0) == e,
        instantiate_ok(e, subst, rev, 0),
{
    lemma_instantiate_closed_off(e, subst, rev, 0);
}

proof fn lemma_instantiate_closed_off(e: Expr, subst: Seq<Expr>, rev: bool, off: nat)
    requires
        loose_bvar_range(e) <= off,
    ensures
        instantiate_spec(e, subst, rev, off) == e,
        instantiate_ok(e, subst, rev, off),
    decreases e,
{
    match e {
        Expr::App(f, a) => {
            lemma_instantiate_closed_off(*f, subst, rev, off);
            lemma_instantiate_closed_off(*a, subst, rev, off);
        },
        Expr::Lam(_, t, b, _) => {
            lemma_instantiate_closed_off(*t, subst, rev, off);
            lemma_instantiate_closed_off(*b, subst, rev, off + 1);
        },
        Expr::ForallE(_, t, b, _) => {
            lemma_instantiate_closed_off(*t, subst, rev, off);
            lemma_instantiate_closed_off(*b, subst, rev, off + 1);
        },
        Expr::LetE(_, t, v, b, _) => {
            lemma_instantiate_closed_off(*t, subst, rev, off);
            lemma_instantiate_closed_off(*v, subst, rev, off);
            lemma_instantiate_closed_off(*b, subst, rev, off + 1);
        },
        Expr::MData(_, b) => {
            lemma_instantiate_closed_off(*b, subst, rev, off);
        },
        Expr::Proj(_, _, b) => {
            lemma_instantiate_closed_off(*b, subst, rev, off);
        },
        _ => {},
    }
}

} // verus!
